//! What a client asks of the daemon, read out of the frames that it sends.

use crate::proto::client::{DETACH, INPUT, RESIZE};
use crate::proto::{
    decode_resize, frame, frame_views, lemma_frames_after_frame, lemma_resize_roundtrip,
    resize_payload, u16_from_le, whole_frames, Frame, FrameView,
};
use vstd::prelude::*;

verus! {

/// What a client asks of the daemon.
#[derive(Debug, PartialEq, Eq)]
pub enum ClientRequest {
    /// Write these bytes to the terminal.
    Input(Vec<u8>),
    /// Set the terminal's window size.
    Resize { cols: u16, rows: u16 },
    /// A frame of a type that the daemon does not know; it is dropped.
    Unknown(u8),
}

/// What a [`ClientRequest`] stands for.
pub enum RequestView {
    Input(Seq<u8>),
    Resize { cols: u16, rows: u16 },
    Unknown(u8),
}

impl View for ClientRequest {
    type V = RequestView;

    open spec fn view(&self) -> RequestView {
        match self {
            ClientRequest::Input(bytes) => RequestView::Input(bytes@),
            ClientRequest::Resize { cols, rows } => RequestView::Resize { cols: *cols, rows: *rows },
            ClientRequest::Unknown(msg_type) => RequestView::Unknown(*msg_type),
        }
    }
}

/// What a sequence of requests stands for.
pub open spec fn request_views(requests: Seq<ClientRequest>) -> Seq<RequestView> {
    requests.map_values(|r: ClientRequest| r@)
}

/// The request that a frame from a client makes, if any. INPUT carries bytes
/// for the terminal. RESIZE carries a window size in its first four bytes and
/// is ignored where it has fewer. DETACH asks for nothing.
pub open spec fn request_of(f: FrameView) -> Option<RequestView> {
    if f.msg_type == INPUT {
        Some(RequestView::Input(f.payload))
    } else if f.msg_type == RESIZE {
        if f.payload.len() >= 4 {
            Some(
                RequestView::Resize {
                    cols: u16_from_le(f.payload.subrange(0, 2)) as u16,
                    rows: u16_from_le(f.payload.subrange(2, 4)) as u16,
                },
            )
        } else {
            None
        }
    } else if f.msg_type == DETACH {
        None
    } else {
        Some(RequestView::Unknown(f.msg_type))
    }
}

/// The requests that a sequence of frames makes, in order.
pub open spec fn requests_of(frames: Seq<FrameView>) -> Seq<RequestView>
    decreases frames.len(),
{
    if frames.len() == 0 {
        Seq::empty()
    } else {
        requests_of(frames.drop_last()) + (match request_of(frames.last()) {
            Some(r) => seq![r],
            None => Seq::empty(),
        })
    }
}

/// Reads the requests out of frames that a client sent.
pub fn requests_from(frames: &Vec<Frame>) -> (requests: Vec<ClientRequest>)
    ensures
        request_views(requests@) == requests_of(frame_views(frames@)),
{
    let mut requests: Vec<ClientRequest> = Vec::new();
    let mut k: usize = 0;
    assert(request_views(requests@) =~= requests_of(frame_views(frames@.take(0))));
    while k < frames.len()
        invariant
            k <= frames@.len(),
            request_views(requests@) == requests_of(frame_views(frames@.take(k as int))),
        decreases frames@.len() - k,
    {
        let f = &frames[k];
        let ghost done = request_views(requests@);
        proof {
            let upto = frame_views(frames@.take(k + 1));
            assert(upto.drop_last() =~= frame_views(frames@.take(k as int)));
            assert(upto.last() == f@);
        }
        if f.msg_type == INPUT {
            let bytes: Vec<u8> = f.payload.clone();
            assert(bytes@ == f.payload@);
            let request = ClientRequest::Input(bytes);
            requests.push(request);
            assert(request_views(requests@) =~= done + seq![request@]);
        } else if f.msg_type == RESIZE {
            if f.payload.len() >= 4 {
                let raw: [u8; 4] = [f.payload[0], f.payload[1], f.payload[2], f.payload[3]];
                assert(raw@.subrange(0, 2) =~= f.payload@.subrange(0, 2));
                assert(raw@.subrange(2, 4) =~= f.payload@.subrange(2, 4));
                let (cols, rows) = decode_resize(&raw);
                let request = ClientRequest::Resize { cols, rows };
                requests.push(request);
                assert(request_views(requests@) =~= done + seq![request@]);
            } else {
                assert(done + Seq::<RequestView>::empty() =~= done);
            }
        } else if f.msg_type == DETACH {
            assert(done + Seq::<RequestView>::empty() =~= done);
        } else {
            let request = ClientRequest::Unknown(f.msg_type);
            requests.push(request);
            assert(request_views(requests@) =~= done + seq![request@]);
        }
        k = k + 1;
    }
    assert(frames@.take(frames@.len() as int) =~= frames@);
    requests
}

/// The requests of frames one after the other are the requests of the first
/// ones, then those of the later ones.
pub proof fn lemma_requests_of_concat(first: Seq<FrameView>, later: Seq<FrameView>)
    ensures
        requests_of(first + later) == requests_of(first) + requests_of(later),
    decreases later.len(),
{
    if later.len() == 0 {
        assert(first + later =~= first);
        assert(requests_of(first) + requests_of(later) =~= requests_of(first));
    } else {
        let last = match request_of(later.last()) {
            Some(r) => seq![r],
            None => Seq::empty(),
        };
        lemma_requests_of_concat(first, later.drop_last());
        assert((first + later).drop_last() =~= first + later.drop_last());
        assert((first + later).last() == later.last());
        assert((requests_of(first) + requests_of(later.drop_last())) + last =~= requests_of(first)
            + (requests_of(later.drop_last()) + last));
    }
}

/// A frame at the front of what a client sent is answered first, with the
/// request that it makes; the answer to what follows it is not affected.
pub proof fn lemma_first_request(msg_type: u8, payload: Seq<u8>, rest: Seq<u8>)
    requires
        payload.len() <= u32::MAX,
    ensures
        requests_of(whole_frames(frame(msg_type, payload) + rest)) == (match request_of(
            FrameView { msg_type, payload },
        ) {
            Some(r) => seq![r],
            None => Seq::empty(),
        }) + requests_of(whole_frames(rest)),
{
    let first = FrameView { msg_type, payload };
    lemma_frames_after_frame(msg_type, payload, rest);
    lemma_requests_of_concat(seq![first], whole_frames(rest));
    assert(seq![first].drop_last() =~= Seq::<FrameView>::empty());
    assert(seq![first].last() == first);
    assert(requests_of(seq![first].drop_last()) =~= Seq::<RequestView>::empty());
    assert(requests_of(seq![first]) =~= (match request_of(first) {
        Some(r) => seq![r],
        None => Seq::empty(),
    }));
}

/// Bytes that a client sends as INPUT are asked to be written to the
/// terminal as they are, and the size that it sends as RESIZE is the size
/// asked for.
pub proof fn lemma_requests_roundtrip(data: Seq<u8>, cols: u16, rows: u16)
    ensures
        request_of(FrameView { msg_type: INPUT, payload: data }) == Some(RequestView::Input(data)),
        request_of(FrameView { msg_type: RESIZE, payload: resize_payload(cols, rows) }) == Some(
            RequestView::Resize { cols, rows },
        ),
        request_of(FrameView { msg_type: DETACH, payload: data }) is None,
{
    lemma_resize_roundtrip(cols, rows);
}

} // verus!
