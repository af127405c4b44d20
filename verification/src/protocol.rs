//! What the layer asks of the kernel, and what comes back.
//!
//! The layer decides; a driver acts. The driver performs one [`Action`] at a
//! time and hands back the [`Event`] that tells how it went. An action that
//! failed is answered with [`Event::Failed`], and an event that does not fit
//! the action is taken as such a failure.

use vstd::prelude::*;
use crate::abi::Regs;
use crate::time::Time;

verus! {

/// One thing for the driver to do. `B` is the type of byte strings.
#[derive(Clone, Debug, PartialEq, Eq)]
pub enum Action<B> {
    /// Wait for the process `pid` to change state. Answer: `Waited`.
    WaitFor { pid: i32 },
    /// Wait for any traced process. Answer: `Waited`, or `WaitFailed`.
    Wait,
    /// End the tracer with this status.
    Exit { code: i32 },
    /// Let the process run on, up to its next system call stop where `syscall`
    /// is set, and give it `signal`. The answer does not matter.
    Resume { pid: i32, syscall: bool, signal: Option<i32> },
    /// Set the tracing options. Answer: `Done`.
    SetOptions { pid: i32, options: u32 },
    /// Read the registers. Answer: `Regs`.
    GetRegs { pid: i32 },
    /// Replace the registers. Answer: `Done`.
    SetRegs { pid: i32, regs: Regs },
    /// Read a word of memory. Answer: `Word`.
    Peek { pid: i32, addr: u64 },
    /// Read memory. Answer: `Bytes`.
    Read { pid: i32, addr: u64, len: usize },
    /// Write memory, and change nothing before or behind the bytes. Answer: `Done`.
    Write { pid: i32, addr: u64, bytes: B },
    /// Read a clock. Answer: `Time`.
    Clock { id: i32 },
    /// Open `/proc/<pid>/fd/<fd>` for writing without blocking. Answer: `Handle`.
    OpenPipe { pid: i32, fd: i64 },
    /// Write the eight bytes of `count` to a handle. Answer: `Wrote`.
    Expire { handle: i32, count: u64 },
    /// Set the interval timer of the tracer to go off once, or not at all where
    /// both are zero. The answer does not matter.
    SetTimer { seconds: i64, microseconds: i64 },
    /// Consume the alarm. Answer: `Done` where it had gone off.
    TakeAlarm,
    /// Open the source of random bytes. Answer: `Done`.
    OpenRandom,
    /// Read that many bytes from it. Answer: `Bytes`.
    ReadRandom { len: usize },
}

/// How an action went.
#[derive(Debug)]
pub enum Event<B> {
    /// It failed.
    Failed,
    /// It succeeded and has nothing to report.
    Done,
    Regs(Regs),
    Word(u64),
    Bytes(B),
    Time(Time),
    Handle(i32),
    /// What `write` returned, and `errno`.
    Wrote { written: i64, errno: i32 },
    /// What `waitpid` returned.
    Waited { pid: i32, status: i32 },
    /// What `waitpid` failed with.
    WaitFailed { errno: i32 },
}

impl View for Action<Vec<u8>> {
    type V = Action<Seq<u8>>;

    open spec fn view(&self) -> Action<Seq<u8>> {
        match *self {
            Action::WaitFor { pid } => Action::WaitFor { pid },
            Action::Wait => Action::Wait,
            Action::Exit { code } => Action::Exit { code },
            Action::Resume { pid, syscall, signal } => Action::Resume { pid, syscall, signal },
            Action::SetOptions { pid, options } => Action::SetOptions { pid, options },
            Action::GetRegs { pid } => Action::GetRegs { pid },
            Action::SetRegs { pid, regs } => Action::SetRegs { pid, regs },
            Action::Peek { pid, addr } => Action::Peek { pid, addr },
            Action::Read { pid, addr, len } => Action::Read { pid, addr, len },
            Action::Write { pid, addr, bytes } => Action::Write { pid, addr, bytes: bytes@ },
            Action::Clock { id } => Action::Clock { id },
            Action::OpenPipe { pid, fd } => Action::OpenPipe { pid, fd },
            Action::Expire { handle, count } => Action::Expire { handle, count },
            Action::SetTimer { seconds, microseconds } => Action::SetTimer { seconds, microseconds },
            Action::TakeAlarm => Action::TakeAlarm,
            Action::OpenRandom => Action::OpenRandom,
            Action::ReadRandom { len } => Action::ReadRandom { len },
        }
    }
}

impl View for Event<Vec<u8>> {
    type V = Event<Seq<u8>>;

    open spec fn view(&self) -> Event<Seq<u8>> {
        match *self {
            Event::Failed => Event::Failed,
            Event::Done => Event::Done,
            Event::Regs(regs) => Event::Regs(regs),
            Event::Word(word) => Event::Word(word),
            Event::Bytes(bytes) => Event::Bytes(bytes@),
            Event::Time(time) => Event::Time(time),
            Event::Handle(handle) => Event::Handle(handle),
            Event::Wrote { written, errno } => Event::Wrote { written, errno },
            Event::Waited { pid, status } => Event::Waited { pid, status },
            Event::WaitFailed { errno } => Event::WaitFailed { errno },
        }
    }
}

impl Event<Seq<u8>> {
    /// The bytes, where it is as many as were asked for.
    pub open spec fn bytes_of(self, len: int) -> Option<Seq<u8>> {
        match self {
            Event::Bytes(bytes) if bytes.len() == len => Some(bytes),
            _ => None,
        }
    }

    pub open spec fn regs_of(self) -> Option<Regs> {
        match self {
            Event::Regs(regs) => Some(regs),
            _ => None,
        }
    }

    pub open spec fn word_of(self) -> Option<u64> {
        match self {
            Event::Word(word) => Some(word),
            _ => None,
        }
    }

    pub open spec fn time_of(self) -> Option<Time> {
        match self {
            Event::Time(time) => Some(time),
            _ => None,
        }
    }

    pub open spec fn handle_of(self) -> Option<i32> {
        match self {
            Event::Handle(handle) => Some(handle),
            _ => None,
        }
    }

    /// What a write returned. An event that is none counts as a write to a pipe
    /// that nobody reads.
    pub open spec fn written_of(self) -> (i64, i32) {
        match self {
            Event::Wrote { written, errno } => (written, errno),
            _ => (-1i64, 0i32),
        }
    }
}

impl Event<Vec<u8>> {
    /// Whether the action succeeded.
    pub fn done(&self) -> (r: bool)
        ensures
            r == (self@ is Done),
    {
        match self {
            Event::Done => true,
            _ => false,
        }
    }

    /// The registers that were read.
    pub fn regs(&self) -> (r: Option<Regs>)
        ensures
            r == self@.regs_of(),
    {
        match self {
            Event::Regs(regs) => Some(*regs),
            _ => None,
        }
    }

    /// The word that was read.
    pub fn word(&self) -> (r: Option<u64>)
        ensures
            r == self@.word_of(),
    {
        match self {
            Event::Word(word) => Some(*word),
            _ => None,
        }
    }

    /// The `len` bytes that were read.
    pub fn bytes(self, len: usize) -> (r: Option<Vec<u8>>)
        ensures
            match r {
                Some(bytes) => self@.bytes_of(len as int) == Some(bytes@),
                None => self@.bytes_of(len as int) is None,
            },
    {
        match self {
            Event::Bytes(bytes) => if bytes.len() == len { Some(bytes) } else { None },
            _ => None,
        }
    }

    /// What the clock said.
    pub fn time(&self) -> (r: Option<Time>)
        ensures
            r == self@.time_of(),
    {
        match self {
            Event::Time(time) => Some(*time),
            _ => None,
        }
    }

    /// The handle that was opened.
    pub fn handle(&self) -> (r: Option<i32>)
        ensures
            r == self@.handle_of(),
    {
        match self {
            Event::Handle(handle) => Some(*handle),
            _ => None,
        }
    }

    /// What a write returned, and `errno`.
    pub fn written(&self) -> (r: (i64, i32))
        ensures
            r == self@.written_of(),
    {
        match self {
            Event::Wrote { written, errno } => (*written, *errno),
            _ => (-1, 0),
        }
    }
}

}
