//! What `waitpid` reports.

use vstd::prelude::*;

verus! {

/// What happened to a traced process. Stop signals are plain numbers, so that
/// real-time signals are among them.
#[derive(Clone, Copy, Debug, PartialEq, Eq, Structural)]
pub enum Wait {
    Exited { pid: i32, code: i32 },
    Signaled { pid: i32, signal: i32 },
    /// Stopped by a signal.
    Stopped { pid: i32, signal: i32 },
    /// A ptrace event.
    Event { pid: i32, event: u32 },
    /// A system call stop.
    Syscall { pid: i32 },
}

/// The meaning of a wait status. The low seven bits hold the signal that killed
/// the process, zero where it exited and all ones where it stopped; the next byte
/// holds the exit code or the stop signal, whose top bit marks a system call
/// stop; what is above holds the ptrace event.
pub open spec fn meaning(pid: i32, status: i32) -> Wait {
    let killed_by = status & 0x7f;
    let code = (status >> 8) & 0xff;
    let event = (status >> 16) as u32;
    if killed_by == 0 {
        Wait::Exited { pid, code }
    } else if status & 0xff != 0x7f {
        Wait::Signaled { pid, signal: killed_by }
    } else if code & 0x80 != 0 {
        Wait::Syscall { pid }
    } else if event != 0 {
        Wait::Event { pid, event }
    } else {
        Wait::Stopped { pid, signal: code }
    }
}

/// Decode a wait status.
pub fn decode(pid: i32, status: i32) -> (wait: Wait)
    ensures
        wait == meaning(pid, status),
{
    if status & 0x7f == 0 {
        Wait::Exited { pid, code: (status >> 8) & 0xff }
    } else if status & 0xff == 0x7f {
        let signal = (status >> 8) & 0xff;
        if signal & 0x80 != 0 {
            Wait::Syscall { pid }
        } else {
            let event = (status >> 16) as u32;
            if event != 0 {
                Wait::Event { pid, event }
            } else {
                Wait::Stopped { pid, signal }
            }
        }
    } else {
        Wait::Signaled { pid, signal: status & 0x7f }
    }
}

/// Every status of a process that exited with `code` is read as that.
pub proof fn exit_codes_are_read(pid: i32, code: i32)
    requires
        0 <= code < 0x100,
    ensures
        meaning(pid, (code * 0x100) as i32) == (Wait::Exited { pid, code }),
{
    let status = (code * 0x100) as i32;
    assert(status & 0x7f == 0 && (status >> 8) & 0xff == code) by (bit_vector)
        requires
            0 <= code < 0x100,
            status == code * 0x100,
    ;
}

/// Every signal stop, of real-time signals too, is read as that, and never as
/// the end of the process.
pub proof fn stop_signals_are_read(pid: i32, signal: i32)
    requires
        0 <= signal < 0x80,
    ensures
        meaning(pid, (signal * 0x100 + 0x7f) as i32) == (Wait::Stopped { pid, signal }),
{
    let status = (signal * 0x100 + 0x7f) as i32;
    assert(status & 0x7f == 0x7f && status & 0xff == 0x7f && (status >> 8) & 0xff == signal
        && signal & 0x80 == 0 && (status >> 16) as u32 == 0) by (bit_vector)
        requires
            0 <= signal < 0x80,
            status == signal * 0x100 + 0x7f,
    ;
}

/// The status bits that `decode` reads bound what it reports.
pub proof fn reports_are_bounded(pid: i32, status: i32)
    ensures
        match meaning(pid, status) {
            Wait::Exited { code, .. } => 0 <= code < 0x100,
            Wait::Signaled { signal, .. } => 0 < signal < 0x80,
            Wait::Stopped { signal, .. } => 0 <= signal < 0x80,
            Wait::Event { event, .. } => event != 0,
            Wait::Syscall { .. } => true,
        },
{
    assert(0 <= status & 0x7f < 0x80 && 0 <= (status >> 8) & 0xff < 0x100) by (bit_vector);
    let code = (status >> 8) & 0xff;
    assert(code & 0x80 == 0 ==> code < 0x80) by (bit_vector)
        requires
            0 <= code < 0x100,
    ;
}

}
