//! How an application is started under the tracer.
//!
//! Nothing here may turn an application that runs into one that does not: where the
//! tracer cannot be set up, the application runs untraced.

use vstd::prelude::*;
use crate::seccomp::filter_reported;

verus! {

/// What is done next to start the application. The process that is to be traced
/// and the tracer each go on from the fork on their own.
#[derive(Clone, Copy, Debug, PartialEq, Eq, Structural)]
pub enum Launch {
    /// Find out whether a process may be traced here. Answer: `Yes` or `No`.
    ProbePtrace,
    /// Find out, while not traced yet, whether giving up privileges makes the kernel
    /// refuse to run programs. The answer does not matter.
    ProbeExec,
    /// Open the pipe on which the child reports. Answer: `Yes` or `No`.
    OpenPipe,
    /// Fork. Answer: `Child`, `Parent` or `No`.
    Fork { pipe: bool },
    /// In the child, close the read end where there is a pipe, and ask to be traced.
    /// Answer: `Yes` or `No`.
    TraceMe { pipe: bool },
    /// Close the write end, unreported. The answer does not matter.
    Hush,
    /// Install the filter. Answer: `Yes` or `No`.
    InstallFilter { pipe: bool },
    /// Report on the pipe whether it is installed, and close it. The answer does not
    /// matter.
    Report { installed: bool },
    /// Stop, so that the tracer can set its options. The answer does not matter.
    Stop,
    /// Run the application.
    Run,
    /// In the tracer, close the write end, read the report and close the pipe.
    /// Answer: `Reported`.
    ReadReport,
    /// Supervise the child.
    Supervise { use_seccomp: bool },
}

/// How it went.
#[derive(Clone, Copy, Debug, PartialEq, Eq, Structural)]
pub enum LaunchEvent {
    Yes,
    No,
    /// This is the child.
    Child,
    /// This is the parent.
    Parent,
    /// So many bytes came, the first of them being `byte`.
    Reported { read: i64, byte: u8 },
}

/// What is done after `at`.
pub open spec fn launched(at: Launch, event: LaunchEvent) -> Launch {
    match at {
        Launch::ProbePtrace => if event == LaunchEvent::Yes {
            Launch::ProbeExec
        } else {
            Launch::Run
        },
        Launch::ProbeExec => Launch::OpenPipe,
        Launch::OpenPipe => Launch::Fork { pipe: event == LaunchEvent::Yes },
        Launch::Fork { pipe } => match event {
            LaunchEvent::Child => Launch::TraceMe { pipe },
            LaunchEvent::Parent => if pipe {
                Launch::ReadReport
            } else {
                Launch::Supervise { use_seccomp: false }
            },
            _ => Launch::Run,
        },
        Launch::TraceMe { pipe } => if event == LaunchEvent::Yes {
            Launch::InstallFilter { pipe }
        } else if pipe {
            Launch::Hush
        } else {
            Launch::Run
        },
        Launch::Hush => Launch::Run,
        Launch::InstallFilter { pipe } => if pipe {
            Launch::Report { installed: event == LaunchEvent::Yes }
        } else {
            Launch::Stop
        },
        Launch::Report { .. } => Launch::Stop,
        Launch::Stop => Launch::Run,
        Launch::ReadReport => Launch::Supervise {
            use_seccomp: match event {
                LaunchEvent::Reported { read, byte } => read == 1 && byte == 1,
                _ => false,
            },
        },
        Launch::Run => Launch::Run,
        Launch::Supervise { use_seccomp } => Launch::Supervise { use_seccomp },
    }
}


/// Decide what is done after `at`, now that it is known how that went. The start is
/// `Launch::ProbePtrace`; the end is that the application runs or is supervised.
pub fn run_apprun_traced(at: Launch, event: LaunchEvent) -> (next: Launch)
    ensures
        next == launched(at, event),
{
    match at {
        Launch::ProbePtrace => if event == LaunchEvent::Yes {
            Launch::ProbeExec
        } else {
            Launch::Run
        },
        Launch::ProbeExec => Launch::OpenPipe,
        Launch::OpenPipe => Launch::Fork { pipe: event == LaunchEvent::Yes },
        Launch::Fork { pipe } => match event {
            LaunchEvent::Child => Launch::TraceMe { pipe },
            LaunchEvent::Parent => if pipe {
                Launch::ReadReport
            } else {
                Launch::Supervise { use_seccomp: false }
            },
            _ => Launch::Run,
        },
        Launch::TraceMe { pipe } => if event == LaunchEvent::Yes {
            Launch::InstallFilter { pipe }
        } else if pipe {
            Launch::Hush
        } else {
            Launch::Run
        },
        Launch::Hush => Launch::Run,
        Launch::InstallFilter { pipe } => if pipe {
            Launch::Report { installed: event == LaunchEvent::Yes }
        } else {
            Launch::Stop
        },
        Launch::Report { .. } => Launch::Stop,
        Launch::Stop => Launch::Run,
        Launch::ReadReport => {
            let use_seccomp = match event {
                LaunchEvent::Reported { read, byte } => filter_reported(read, byte),
                _ => false,
            };
            Launch::Supervise { use_seccomp }
        },
        Launch::Run => Launch::Run,
        Launch::Supervise { use_seccomp } => Launch::Supervise { use_seccomp },
    }
}

/// How many steps are left at most.
pub open spec fn steps_left(at: Launch) -> nat {
    match at {
        Launch::ProbePtrace => 8,
        Launch::ProbeExec => 7,
        Launch::OpenPipe => 6,
        Launch::Fork { .. } => 5,
        Launch::TraceMe { .. } => 4,
        Launch::InstallFilter { .. } => 3,
        Launch::Report { .. } => 2,
        Launch::Hush | Launch::Stop | Launch::ReadReport => 1,
        Launch::Run | Launch::Supervise { .. } => 0,
    }
}

/// Whatever fails, the launch comes to an end: the application runs, or is
/// supervised.
pub proof fn launches_end(at: Launch, event: LaunchEvent)
    ensures
        steps_left(at) > 0 ==> steps_left(launched(at, event)) < steps_left(at),
        steps_left(at) == 0 ==> launched(at, event) == at,
{
}

/// The filter is relied on only where the child says that it installed it.
pub proof fn filter_is_relied_on_when_reported(at: Launch, event: LaunchEvent)
    requires
        !(at is Supervise),
        launched(at, event) == (Launch::Supervise { use_seccomp: true }),
    ensures
        at is ReadReport,
        event == (LaunchEvent::Reported { read: 1, byte: 1 }),
{
}

/// Where a process may not be traced, or the tracer cannot be forked, or the child
/// cannot be traced, the application runs without having been stopped.
pub proof fn failures_leave_the_application_alone(pipe: bool, event: LaunchEvent)
    ensures
        launched(Launch::ProbePtrace, LaunchEvent::No) == Launch::Run,
        launched(Launch::Fork { pipe }, LaunchEvent::No) == Launch::Run,
        launched(Launch::TraceMe { pipe: false }, LaunchEvent::No) == Launch::Run,
        launched(launched(Launch::TraceMe { pipe: true }, LaunchEvent::No), event) == Launch::Run,
{
}

/// The child that may be traced asks for the filter whether or not there is a pipe, reports on
/// the pipe what came of it, and stops for the tracer before it runs the application.
pub proof fn child_stops_before_it_runs(
    pipe: bool,
    installed: LaunchEvent,
    reported: LaunchEvent,
    stopped: LaunchEvent,
)
    ensures
        ({
            let traced = launched(Launch::Fork { pipe }, LaunchEvent::Child);
            let filters = launched(traced, LaunchEvent::Yes);
            let next = launched(filters, installed);
            &&& traced == (Launch::TraceMe { pipe })
            &&& filters == (Launch::InstallFilter { pipe })
            &&& pipe ==> next == (Launch::Report { installed: installed == LaunchEvent::Yes })
                && launched(next, reported) == Launch::Stop
            &&& !pipe ==> next == Launch::Stop
            &&& launched(Launch::Stop, stopped) == Launch::Run
        }),
{
}

/// The tracer reads the report where there is a pipe, and relies on the filter exactly where
/// the one byte one was read. Without a pipe it does not rely on it.
pub proof fn tracer_relies_on_the_report(read: i64, byte: u8)
    ensures
        launched(Launch::Fork { pipe: false }, LaunchEvent::Parent) == (Launch::Supervise {
            use_seccomp: false,
        }),
        launched(Launch::Fork { pipe: true }, LaunchEvent::Parent) == Launch::ReadReport,
        launched(Launch::ReadReport, LaunchEvent::Reported { read, byte }) == (Launch::Supervise {
            use_seccomp: read == 1 && byte == 1,
        }),
        launched(Launch::ReadReport, LaunchEvent::No) == (Launch::Supervise {
            use_seccomp: false,
        }),
{
}

/// Before the fork it is found out whether a process may be traced, then whether programs can
/// be run without privileges, whatever came of it, and a pipe is opened, which is used where
/// there is one. The application runs in any case.
pub proof fn launches_are_prepared(event: LaunchEvent)
    ensures
        launched(Launch::ProbePtrace, LaunchEvent::Yes) == Launch::ProbeExec,
        event != LaunchEvent::Yes ==> launched(Launch::ProbePtrace, event) == Launch::Run,
        launched(Launch::ProbeExec, event) == Launch::OpenPipe,
        launched(Launch::OpenPipe, event) == (Launch::Fork { pipe: event == LaunchEvent::Yes }),
        event != LaunchEvent::Yes ==> launched(Launch::TraceMe { pipe: true }, event)
            == Launch::Hush && launched(Launch::TraceMe { pipe: false }, event) == Launch::Run,
        launched(Launch::Hush, event) == Launch::Run,
{
}

}
