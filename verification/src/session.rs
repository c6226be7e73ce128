//! One terminal session: its name, its scrollback and the fate of its child.
//!
//! The session does not own the terminal. Whoever does hands over what a read
//! returned, what a write reported and what waiting on the child reported,
//! and is told what follows from it.

use crate::buffer::ScrollbackBuffer;
use crate::event::{WriteOutcome, WriteStep};
use vstd::prelude::*;

verus! {

/// Capacity of a session's scrollback: one mebibyte.
pub const DEFAULT_SCROLLBACK_SIZE: usize = 1048576;

/// What waiting on the child, without blocking, reported.
#[derive(Clone, Copy, Debug)]
pub enum ChildStatus {
    /// The child has not ended: it runs, is stopped, or could not be asked.
    Running,
    /// The child returned from `main` or called `exit` with this status.
    Exited(i32),
    /// A signal with this number killed the child.
    Signaled(i32),
}

/// The exit code that a status stands for: the exit status of a child that
/// ended by itself, `128 + signo` for one that a signal killed.
pub open spec fn exit_code_of(status: ChildStatus) -> Option<int> {
    match status {
        ChildStatus::Running => None,
        ChildStatus::Exited(code) => Some(code as int),
        ChildStatus::Signaled(signo) => Some(128 + signo),
    }
}

/// The step that follows when `written` of `len` bytes are out and the next
/// attempt reported `outcome`; `None` stands for the time before the first
/// attempt.
pub open spec fn pty_write_step(len: usize, written: usize, outcome: Option<WriteOutcome>)
    -> WriteStep {
    if written >= len {
        WriteStep::Done
    } else {
        match outcome {
            None => WriteStep::Write { from: written },
            Some(WriteOutcome::Wrote(n)) => if n == 0 {
                WriteStep::WriteZero
            } else if n >= len - written {
                WriteStep::Done
            } else {
                WriteStep::Write { from: (written + n) as usize }
            },
            Some(WriteOutcome::Interrupted) => WriteStep::Write { from: written },
            Some(WriteOutcome::WouldBlock) => WriteStep::YieldThenWrite { from: written },
            Some(WriteOutcome::Failed) => WriteStep::Failed,
        }
    }
}

/// A session: a named terminal with its scrollback and, once the child has
/// ended, its exit code.
pub struct Session {
    pub name: String,
    pub scrollback: ScrollbackBuffer,
    pub exited: Option<i32>,
}

impl Session {
    /// Whether the session's parts are sound.
    pub open spec fn wf(&self) -> bool {
        self.scrollback.wf()
    }

    /// A session of that name with empty scrollback and a running child.
    pub fn new(name: String) -> (session: Self)
        ensures
            session.wf(),
            session.name == name,
            session.scrollback.capacity() == DEFAULT_SCROLLBACK_SIZE,
            session.scrollback.history() == Seq::<u8>::empty(),
            session.exited is None,
    {
        Session { name, scrollback: ScrollbackBuffer::new(DEFAULT_SCROLLBACK_SIZE), exited: None }
    }

    /// Takes in what a read from the terminal returned: every byte of it goes
    /// to the scrollback, in order. Returns the number of bytes.
    pub fn read_pty(&mut self, data: &[u8]) -> (n: usize)
        requires
            old(self).wf(),
            old(self).scrollback.history().len() + data@.len() <= u64::MAX,
        ensures
            final(self).wf(),
            n == data@.len(),
            final(self).scrollback.history() == old(self).scrollback.history() + data@,
            final(self).scrollback.capacity() == old(self).scrollback.capacity(),
            final(self).name == old(self).name,
            final(self).exited == old(self).exited,
    {
        let n: usize = data.len();
        if n > 0 {
            self.scrollback.append(data);
        } else {
            assert(self.scrollback.history() + data@ =~= self.scrollback.history());
        }
        n
    }

    /// Decides how a write of `len` bytes to the terminal goes on: the caller
    /// sees all of the bytes written, or an error. An interrupted attempt is
    /// repeated at once, one that would block after a pause.
    pub fn write_pty(len: usize, written: usize, outcome: Option<WriteOutcome>) -> (step:
        WriteStep)
        ensures
            step == pty_write_step(len, written, outcome),
    {
        if written >= len {
            return WriteStep::Done;
        }
        match outcome {
            None => WriteStep::Write { from: written },
            Some(WriteOutcome::Wrote(n)) => {
                if n == 0 {
                    WriteStep::WriteZero
                } else if n >= len - written {
                    WriteStep::Done
                } else {
                    WriteStep::Write { from: written + n }
                }
            },
            Some(WriteOutcome::Interrupted) => WriteStep::Write { from: written },
            Some(WriteOutcome::WouldBlock) => WriteStep::YieldThenWrite { from: written },
            Some(WriteOutcome::Failed) => WriteStep::Failed,
        }
    }

    /// Takes in what waiting on the child reported and returns the exit
    /// code, if the child has ended. The first code observed stays: once the
    /// child has ended, later reports change nothing.
    pub fn check_exit(&mut self, status: ChildStatus) -> (code: Option<i32>)
        requires
            old(self).exited is None ==> match exit_code_of(status) {
                Some(c) => c <= i32::MAX,
                None => true,
            },
        ensures
            code == final(self).exited,
            old(self).exited is Some ==> final(self).exited == old(self).exited,
            old(self).exited is None ==> match exit_code_of(status) {
                Some(c) => final(self).exited == Some(c as i32),
                None => final(self).exited is None,
            },
            final(self).name == old(self).name,
            final(self).scrollback == old(self).scrollback,
    {
        if self.exited.is_some() {
            return self.exited;
        }
        match status {
            ChildStatus::Exited(code) => {
                self.exited = Some(code);
            },
            ChildStatus::Signaled(signo) => {
                self.exited = Some(128 + signo);
            },
            ChildStatus::Running => {},
        }
        self.exited
    }
}

} // verus!
