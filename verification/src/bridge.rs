//! The client's side of a session, as a state machine.
//!
//! A bridge stands between a host terminal and a session's socket: what is
//! typed goes to the daemon as INPUT frames, what the daemon sends is written
//! to the terminal. The [`Bridge`] does no I/O. The loop that owns standard
//! input, the socket and the wake-up pipe tells it what each read reported
//! and carries out what it answers.

use crate::event::{ReadOutcome, WriteOutcome, WriteStep};
use crate::proto::client::{DETACH, INPUT, RESIZE};
use crate::proto::server::{EXIT, OUTPUT, SCROLLBACK};
use crate::proto::{
    encode, encode_resize, frame, frame_views, i32_from_le, i32_from_le_bytes, i32_le, leftover,
    lemma_frames_after_frame, lemma_i32_le_roundtrip, resize_payload, take_frames, whole_frames,
    Frame, FrameView,
};
use vstd::prelude::*;

verus! {

/// The token under which standard input is registered with the multiplexer.
pub const TOKEN_STDIN: usize = 0;

/// The token under which the session's socket is registered.
pub const TOKEN_SOCKET: usize = 1;

/// The token under which the read end of the wake-up pipe is registered.
pub const TOKEN_WAKE: usize = 2;

/// What the loop does after it has carried out a step.
#[derive(Clone, Copy, Debug, PartialEq, Eq)]
pub enum BridgeNext {
    /// Read from the same descriptor again.
    ReadAgain,
    /// Wait for the next event.
    Wait,
    /// Leave the loop.
    Leave,
}

/// The answer to a read from standard input.
pub struct StdinStep {
    /// Bytes to write to the socket; none where there is nothing to send.
    pub send: Vec<u8>,
    pub next: BridgeNext,
}

/// The answer to a read from the socket.
pub struct SocketStep {
    /// Bytes to write to the terminal, as they are.
    pub output: Vec<u8>,
    pub next: BridgeNext,
}

/// What is sent to the daemon when a read from standard input reported
/// `event`: what was typed as one INPUT frame, or a DETACH frame at the end
/// of standard input.
pub open spec fn stdin_send(event: ReadOutcome<'_>) -> Seq<u8> {
    match event {
        ReadOutcome::Data(data) => if data@.len() == 0 {
            frame(DETACH, Seq::empty())
        } else {
            frame(INPUT, data@)
        },
        _ => Seq::empty(),
    }
}

/// What follows a read from standard input or from the socket that reported
/// `event`, as far as the event alone decides it.
pub open spec fn next_after_read(event: ReadOutcome<'_>) -> BridgeNext {
    match event {
        ReadOutcome::Data(data) => if data@.len() == 0 {
            BridgeNext::Leave
        } else {
            BridgeNext::ReadAgain
        },
        ReadOutcome::Interrupted => BridgeNext::ReadAgain,
        ReadOutcome::WouldBlock => BridgeNext::Wait,
        ReadOutcome::Failed => BridgeNext::Leave,
    }
}

/// The bytes that frames from the daemon put on the terminal: the payloads
/// of the OUTPUT and SCROLLBACK frames that come before the first EXIT frame,
/// in order.
pub open spec fn delivered(frames: Seq<FrameView>) -> Seq<u8>
    decreases frames.len(),
{
    if frames.len() == 0 || frames[0].msg_type == EXIT {
        Seq::empty()
    } else if frames[0].msg_type == OUTPUT || frames[0].msg_type == SCROLLBACK {
        frames[0].payload + delivered(frames.skip(1))
    } else {
        delivered(frames.skip(1))
    }
}

/// The first EXIT frame among `frames`, if there is one.
pub open spec fn first_exit(frames: Seq<FrameView>) -> Option<FrameView>
    decreases frames.len(),
{
    if frames.len() == 0 {
        None
    } else if frames[0].msg_type == EXIT {
        Some(frames[0])
    } else {
        first_exit(frames.skip(1))
    }
}

/// The exit code after `frames` arrived: the one that the first EXIT frame
/// carries in its first four bytes, or `code` where there is no EXIT frame or
/// it carries fewer bytes.
pub open spec fn exit_code_after(code: i32, frames: Seq<FrameView>) -> i32 {
    match first_exit(frames) {
        Some(f) => if f.payload.len() >= 4 {
            i32_from_le(f.payload.subrange(0, 4)) as i32
        } else {
            code
        },
        None => code,
    }
}

/// What the daemon sends as OUTPUT or SCROLLBACK reaches the terminal as it
/// is, ahead of what the later frames put there.
pub proof fn lemma_output_is_delivered(msg_type: u8, payload: Seq<u8>, rest: Seq<u8>)
    requires
        msg_type == OUTPUT || msg_type == SCROLLBACK,
        payload.len() <= u32::MAX,
    ensures
        delivered(whole_frames(frame(msg_type, payload) + rest)) == payload + delivered(
            whole_frames(rest),
        ),
        first_exit(whole_frames(frame(msg_type, payload) + rest)) == first_exit(
            whole_frames(rest),
        ),
{
    let first = FrameView { msg_type, payload };
    lemma_frames_after_frame(msg_type, payload, rest);
    assert((seq![first] + whole_frames(rest)).skip(1) =~= whole_frames(rest));
}

/// The exit code that the daemon sends in an EXIT frame is the code that the
/// bridge leaves with, and nothing that follows the frame reaches the
/// terminal.
pub proof fn lemma_exit_code_arrives(code: i32, current: i32, rest: Seq<u8>)
    ensures
        first_exit(whole_frames(frame(EXIT, i32_le(code)) + rest)) is Some,
        exit_code_after(current, whole_frames(frame(EXIT, i32_le(code)) + rest)) == code,
        delivered(whole_frames(frame(EXIT, i32_le(code)) + rest)) == Seq::<u8>::empty(),
{
    lemma_frames_after_frame(EXIT, i32_le(code), rest);
    lemma_i32_le_roundtrip(code);
    assert(i32_le(code).subrange(0, 4) =~= i32_le(code));
}

/// The frame that tells the daemon the size of the host terminal.
pub fn resize_frame(cols: u16, rows: u16) -> (out: Vec<u8>)
    ensures
        out@ == frame(RESIZE, resize_payload(cols, rows)),
{
    let payload = encode_resize(cols, rows);
    encode(RESIZE, payload.as_slice())
}

/// The frame that tells the daemon that the client is leaving.
pub fn detach_frame() -> (out: Vec<u8>)
    ensures
        out@ == frame(DETACH, Seq::empty()),
{
    let payload: [u8; 0] = [];
    assert(payload@ =~= Seq::<u8>::empty());
    encode(DETACH, payload.as_slice())
}

/// Answers a read from standard input: what was typed is sent on, the end of
/// standard input is announced with a DETACH frame and ends the loop.
pub fn stdin_step(event: ReadOutcome<'_>) -> (step: StdinStep)
    requires
        event matches ReadOutcome::Data(data) ==> data@.len() <= u32::MAX,
    ensures
        step.send@ == stdin_send(event),
        step.next == next_after_read(event),
{
    match event {
        ReadOutcome::Data(data) => {
            if data.len() == 0 {
                StdinStep { send: detach_frame(), next: BridgeNext::Leave }
            } else {
                StdinStep { send: encode(INPUT, data), next: BridgeNext::ReadAgain }
            }
        },
        ReadOutcome::Interrupted => StdinStep { send: Vec::new(), next: BridgeNext::ReadAgain },
        ReadOutcome::WouldBlock => StdinStep { send: Vec::new(), next: BridgeNext::Wait },
        ReadOutcome::Failed => StdinStep { send: Vec::new(), next: BridgeNext::Leave },
    }
}

/// The step that follows when `written` of `len` bytes are on the terminal
/// and the next attempt reported `outcome`; `None` stands for the time before
/// the first attempt. An attempt that took nothing is repeated at once.
pub open spec fn raw_write_step(len: usize, written: usize, outcome: Option<WriteOutcome>)
    -> WriteStep {
    if written >= len {
        WriteStep::Done
    } else {
        match outcome {
            Some(WriteOutcome::Wrote(n)) => if n >= len - written {
                WriteStep::Done
            } else {
                WriteStep::Write { from: (written + n) as usize }
            },
            Some(WriteOutcome::Failed) => WriteStep::Failed,
            _ => WriteStep::Write { from: written },
        }
    }
}

/// Decides how a write of `len` bytes to the terminal goes on, until all of
/// them are written or the terminal fails.
pub fn write_all_raw(len: usize, written: usize, outcome: Option<WriteOutcome>) -> (step:
    WriteStep)
    ensures
        step == raw_write_step(len, written, outcome),
{
    if written >= len {
        return WriteStep::Done;
    }
    match outcome {
        Some(WriteOutcome::Wrote(n)) => {
            if n >= len - written {
                WriteStep::Done
            } else {
                WriteStep::Write { from: written + n }
            }
        },
        Some(WriteOutcome::Failed) => WriteStep::Failed,
        _ => WriteStep::Write { from: written },
    }
}

/// The client's state: what has arrived from the daemon without making up a
/// whole frame yet, and the exit code to leave with.
pub struct Bridge {
    recv_buf: Vec<u8>,
    exit_code: i32,
}

impl Bridge {
    /// The bytes received from the daemon that were not taken as frames yet.
    pub closed spec fn received(&self) -> Seq<u8> {
        self.recv_buf@
    }

    /// The exit code to leave with.
    pub closed spec fn spec_exit_code(&self) -> i32 {
        self.exit_code
    }

    /// A bridge that has received nothing. Its exit code is 0 until the
    /// daemon sends another.
    pub fn new() -> (bridge: Self)
        ensures
            bridge.received() == Seq::<u8>::empty(),
            bridge.exit_code() == 0,
    {
        Bridge { recv_buf: Vec::new(), exit_code: 0 }
    }

    /// The exit code to leave with: that of the session's child, if the
    /// daemon has sent it, else 0.
    #[verifier::when_used_as_spec(spec_exit_code)]
    pub fn exit_code(&self) -> (code: i32)
        ensures
            code == self.exit_code(),
    {
        self.exit_code
    }

    /// Answers a read from the socket. Bytes that arrive are kept until
    /// nothing more arrives for now; then every whole frame is taken off
    /// them: terminal output goes to the terminal, an EXIT frame sets the
    /// exit code and ends the loop, and what follows it is dropped. The end
    /// of the stream or an error ends the loop at once.
    pub fn socket_step(&mut self, event: ReadOutcome<'_>) -> (step: SocketStep)
        ensures
            final(self).received() == (match event {
                ReadOutcome::Data(data) => old(self).received() + data@,
                ReadOutcome::WouldBlock => leftover(old(self).received()),
                _ => old(self).received(),
            }),
            step.output@ == (match event {
                ReadOutcome::WouldBlock => delivered(whole_frames(old(self).received())),
                _ => Seq::empty(),
            }),
            final(self).exit_code() == (match event {
                ReadOutcome::WouldBlock => exit_code_after(
                    old(self).exit_code(),
                    whole_frames(old(self).received()),
                ),
                _ => old(self).exit_code(),
            }),
            step.next == (match event {
                ReadOutcome::WouldBlock => if first_exit(whole_frames(old(self).received()))
                    is Some {
                    BridgeNext::Leave
                } else {
                    BridgeNext::Wait
                },
                _ => next_after_read(event),
            }),
    {
        match event {
            ReadOutcome::Data(data) => {
                if data.len() == 0 {
                    assert(self.recv_buf@ + data@ =~= self.recv_buf@);
                    SocketStep { output: Vec::new(), next: BridgeNext::Leave }
                } else {
                    self.recv_buf.extend_from_slice(data);
                    assert(self.recv_buf@ =~= old(self).recv_buf@ + data@);
                    SocketStep { output: Vec::new(), next: BridgeNext::ReadAgain }
                }
            },
            ReadOutcome::Interrupted => SocketStep {
                output: Vec::new(),
                next: BridgeNext::ReadAgain,
            },
            ReadOutcome::Failed => SocketStep { output: Vec::new(), next: BridgeNext::Leave },
            ReadOutcome::WouldBlock => {
                let frames = take_frames(&mut self.recv_buf);
                self.deliver(&frames)
            },
        }
    }

    /// Carries out the frames that the daemon sent, in order.
    fn deliver(&mut self, frames: &Vec<Frame>) -> (step: SocketStep)
        ensures
            final(self).recv_buf == old(self).recv_buf,
            step.output@ == delivered(frame_views(frames@)),
            final(self).exit_code == exit_code_after(old(self).exit_code, frame_views(frames@)),
            step.next == (if first_exit(frame_views(frames@)) is Some {
                BridgeNext::Leave
            } else {
                BridgeNext::Wait
            }),
    {
        let ghost all = frame_views(frames@);
        let mut output: Vec<u8> = Vec::new();
        let mut k: usize = 0;
        proof {
            assert(all.skip(0) =~= all);
            assert(output@ + delivered(all) =~= delivered(all));
        }
        while k < frames.len()
            invariant
                k <= frames@.len(),
                all == frame_views(frames@),
                self.recv_buf == old(self).recv_buf,
                self.exit_code == old(self).exit_code,
                delivered(all) == output@ + delivered(all.skip(k as int)),
                first_exit(all) == first_exit(all.skip(k as int)),
            decreases frames@.len() - k,
        {
            let f = &frames[k];
            let ghost rest = all.skip(k as int);
            proof {
                assert(rest[0] == f@);
                assert(rest.skip(1) =~= all.skip(k + 1));
            }
            if f.msg_type == EXIT {
                if f.payload.len() >= 4 {
                    let raw: [u8; 4] = [f.payload[0], f.payload[1], f.payload[2], f.payload[3]];
                    assert(raw@ =~= f.payload@.subrange(0, 4));
                    self.exit_code = i32_from_le_bytes(&raw);
                }
                assert(output@ + Seq::<u8>::empty() =~= output@);
                return SocketStep { output, next: BridgeNext::Leave };
            } else if f.msg_type == OUTPUT || f.msg_type == SCROLLBACK {
                let ghost so_far = output@;
                output.extend_from_slice(f.payload.as_slice());
                assert(output@ =~= so_far + f.payload@);
                assert(so_far + (f.payload@ + delivered(rest.skip(1))) =~= output@ + delivered(
                    rest.skip(1),
                ));
            }
            k = k + 1;
        }
        assert(output@ + Seq::<u8>::empty() =~= output@);
        SocketStep { output, next: BridgeNext::Wait }
    }
}

} // verus!
