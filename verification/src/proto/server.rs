//! Message types sent by the daemon to a client.

use vstd::prelude::*;

verus! {

/// Terminal output; the payload is what the terminal produced.
pub const OUTPUT: u8 = 0x01;

/// The child has exited; the payload is its exit code, a little-endian `i32`.
pub const EXIT: u8 = 0x02;

/// Scrollback accumulated so far, sent once when a client attaches.
pub const SCROLLBACK: u8 = 0x80;

} // verus!
