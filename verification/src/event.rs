//! What reads and writes on non-blocking descriptors report, in plain values.
//!
//! The state machines of this crate do no I/O. Their driver makes each system
//! call and hands them the result in one of these forms.

use vstd::prelude::*;

verus! {

/// What one non-blocking read reported.
#[derive(Clone, Copy, Debug)]
pub enum ReadOutcome<'a> {
    /// These bytes arrived; none at all means that the stream is at its end.
    Data(&'a [u8]),
    /// A signal interrupted the call before anything arrived.
    Interrupted,
    /// Nothing has arrived for now.
    WouldBlock,
    /// Any other error.
    Failed,
}

/// What one non-blocking write reported.
#[derive(Clone, Copy, Debug)]
pub enum WriteOutcome {
    /// That many bytes were taken.
    Wrote(usize),
    /// A signal interrupted the call before anything was taken.
    Interrupted,
    /// Nothing can be taken right now.
    WouldBlock,
    /// Any other error.
    Failed,
}

/// What to do next about writing out a buffer in full.
#[derive(Clone, Copy, Debug, PartialEq, Eq)]
pub enum WriteStep {
    /// Write the bytes from this offset on.
    Write { from: usize },
    /// Let other work run for a moment, then write the bytes from this
    /// offset on.
    YieldThenWrite { from: usize },
    /// Every byte was taken.
    Done,
    /// The other side took nothing: it is closed.
    WriteZero,
    /// The write failed.
    Failed,
}

} // verus!
