//! Message types sent by a client to the daemon.

use vstd::prelude::*;

verus! {

/// Keyboard input; the payload is written to the terminal as it is.
pub const INPUT: u8 = 0x01;

/// Window size; the payload is a resize payload of four bytes.
pub const RESIZE: u8 = 0x02;

/// Advisory notice that the client is about to disconnect; no payload.
pub const DETACH: u8 = 0x03;

} // verus!
