//! Sanitising scrollback before it is replayed to a newly attached client.
//!
//! A terminal answers some control sequences in writing: a Device Status
//! Report (`CSI 6n`) or a Device Attributes query (`CSI c`, `CSI >c`).
//! Replayed from scrollback, such a query would make the new client's
//! terminal answer again, and the answer would reach the shell as input. The
//! replay therefore leaves these queries out. Live output is never touched.

use vstd::prelude::*;

verus! {

/// The escape byte that opens a control sequence.
pub const ESC: u8 = 0x1b;

/// `[`, which follows the escape byte in a control sequence introducer.
pub const BRACKET: u8 = 0x5b;

/// `n`, the final byte of a Device Status Report.
pub const FINAL_STATUS_REPORT: u8 = 0x6e;

/// `c`, the final byte of a Device Attributes query.
pub const FINAL_DEVICE_ATTRIBUTES: u8 = 0x63;

/// Whether `b` may stand between the introducer and the final byte.
pub open spec fn is_parameter(b: u8) -> bool {
    0x20 <= b <= 0x3f
}

/// Whether `b` ends a control sequence.
pub open spec fn is_final(b: u8) -> bool {
    0x40 <= b <= 0x7e
}

/// Whether `data[start..=end]` is a complete control sequence: the escape
/// byte, `[`, any number of parameter bytes and one final byte.
pub open spec fn is_control_sequence(data: Seq<u8>, start: int, end: int) -> bool {
    &&& 0 <= start
    &&& start + 2 <= end < data.len()
    &&& data[start] == ESC
    &&& data[start + 1] == BRACKET
    &&& forall|k: int| start + 2 <= k < end ==> is_parameter(#[trigger] data[k])
    &&& is_final(data[end])
}

/// Whether `data[start..=end]` is a control sequence that asks the terminal
/// for an answer: one whose final byte is `n` or `c`.
pub open spec fn is_query(data: Seq<u8>, start: int, end: int) -> bool {
    &&& is_control_sequence(data, start, end)
    &&& (data[end] == FINAL_STATUS_REPORT || data[end] == FINAL_DEVICE_ATTRIBUTES)
}

/// Whether the byte at `k` belongs to a query.
pub open spec fn in_query(data: Seq<u8>, k: int) -> bool {
    exists|start: int, end: int| #[trigger] is_query(data, start, end) && start <= k <= end
}

/// The first `n` bytes of `data` without those that belong to a query.
pub open spec fn kept_prefix(data: Seq<u8>, n: int) -> Seq<u8>
    decreases n,
{
    if n <= 0 {
        Seq::empty()
    } else if in_query(data, n - 1) {
        kept_prefix(data, n - 1)
    } else {
        kept_prefix(data, n - 1).push(data[n - 1])
    }
}

/// `data` without its queries. Everything else stays, in order: other control
/// sequences, and one that the end of `data` cuts short.
pub open spec fn sanitized(data: Seq<u8>) -> Seq<u8> {
    kept_prefix(data, data.len() as int)
}

/// Whether no query begins before `at` and ends at or after it.
spec fn no_query_across(data: Seq<u8>, at: int) -> bool {
    forall|start: int, end: int| start < at <= end ==> !#[trigger] is_query(data, start, end)
}

fn is_parameter_byte(b: u8) -> (r: bool)
    ensures
        r == is_parameter(b),
{
    0x20 <= b && b <= 0x3f
}

/// Where the query that begins at `at` ends, if one begins there.
fn query_end(data: &[u8], at: usize) -> (end: Option<usize>)
    requires
        at < data@.len(),
    ensures
        match end {
            Some(e) => is_query(data@, at as int, e as int),
            None => forall|e: int| !is_query(data@, at as int, e),
        },
{
    let n: usize = data.len();
    if data[at] != ESC || n - at < 2 || data[at + 1] != BRACKET {
        return None;
    }
    let mut j: usize = at + 2;
    while j < n && is_parameter_byte(data[j])
        invariant
            at + 2 <= j <= n,
            n == data@.len(),
            forall|k: int| at + 2 <= k < j ==> is_parameter(#[trigger] data@[k]),
        decreases n - j,
    {
        j = j + 1;
    }
    if j < n && (data[j] == FINAL_STATUS_REPORT || data[j] == FINAL_DEVICE_ATTRIBUTES) {
        Some(j)
    } else {
        proof {
            assert forall|e: int| !is_query(data@, at as int, e) by {
                if is_query(data@, at as int, e) {
                    if e < j {
                        assert(is_parameter(data@[e]));
                    } else if e > j {
                        assert(is_parameter(data@[j as int]));
                    }
                }
            }
        }
        None
    }
}

/// Removes the terminal queries from scrollback that is about to be replayed.
pub fn sanitize_scrollback_for_replay(data: &[u8]) -> (out: Vec<u8>)
    ensures
        out@ == sanitized(data@),
        out@.len() <= data@.len(),
{
    let n: usize = data.len();
    let mut out: Vec<u8> = Vec::new();
    let mut i: usize = 0;
    while i < n
        invariant
            0 <= i <= n,
            n == data@.len(),
            out@ == kept_prefix(data@, i as int),
            out@.len() <= i,
            no_query_across(data@, i as int),
        decreases n - i,
    {
        match query_end(data, i) {
            Some(end) => {
                proof {
                    lemma_query_is_dropped(data@, i as int, end as int);
                    lemma_no_query_after(data@, i as int, end as int);
                }
                i = end + 1;
            },
            None => {
                proof {
                    assert(!in_query(data@, i as int));
                }
                out.push(data[i]);
                i = i + 1;
            },
        }
    }
    out
}

/// The bytes of a query add nothing to what is kept.
proof fn lemma_query_is_dropped(data: Seq<u8>, start: int, end: int)
    requires
        is_query(data, start, end),
    ensures
        kept_prefix(data, end + 1) == kept_prefix(data, start),
{
    lemma_query_prefix_is_dropped(data, start, end, end + 1);
}

proof fn lemma_query_prefix_is_dropped(data: Seq<u8>, start: int, end: int, upto: int)
    requires
        is_query(data, start, end),
        start <= upto <= end + 1,
    ensures
        kept_prefix(data, upto) == kept_prefix(data, start),
    decreases upto - start,
{
    if upto > start {
        lemma_query_prefix_is_dropped(data, start, end, upto - 1);
        assert(in_query(data, upto - 1));
    }
}

/// No query begins inside another one or runs on past its final byte.
proof fn lemma_no_query_after(data: Seq<u8>, start: int, end: int)
    requires
        is_query(data, start, end),
        no_query_across(data, start),
    ensures
        no_query_across(data, end + 1),
{
    assert forall|s: int, e: int| s < end + 1 <= e implies !#[trigger] is_query(data, s, e) by {
        if is_query(data, s, e) {
            if s == start {
                assert(is_parameter(data[end]));
            } else if s > start {
                if s >= start + 2 && s < end {
                    assert(is_parameter(data[s]));
                }
            }
        }
    }
}

/// What is replayed is never longer than the scrollback.
pub proof fn lemma_sanitized_len(data: Seq<u8>, n: int)
    requires
        0 <= n <= data.len(),
    ensures
        kept_prefix(data, n).len() <= n,
    decreases n,
{
    if n > 0 {
        lemma_sanitized_len(data, n - 1);
    }
}

/// Scrollback without an escape byte is replayed as it is.
pub proof fn lemma_sanitized_plain(data: Seq<u8>)
    requires
        forall|k: int| 0 <= k < data.len() ==> data[k] != ESC,
    ensures
        sanitized(data) == data,
{
    lemma_kept_prefix_plain(data, data.len() as int);
    assert(data.take(data.len() as int) =~= data);
}

proof fn lemma_kept_prefix_plain(data: Seq<u8>, n: int)
    requires
        0 <= n <= data.len(),
        forall|k: int| 0 <= k < data.len() ==> data[k] != ESC,
    ensures
        kept_prefix(data, n) == data.take(n),
    decreases n,
{
    if n > 0 {
        lemma_kept_prefix_plain(data, n - 1);
        assert(!in_query(data, n - 1));
        assert(data.take(n) =~= data.take(n - 1).push(data[n - 1]));
    } else {
        assert(data.take(n) =~= Seq::<u8>::empty());
    }
}

} // verus!
