//! Bounded scrollback: a byte ring that forgets its oldest data.

use vstd::prelude::*;
use vstd::slice::slice_subrange;

verus! {

/// The last `cap` bytes of `s`, or all of `s` where it has no more than `cap`.
pub open spec fn retained(s: Seq<u8>, cap: nat) -> Seq<u8> {
    if s.len() <= cap {
        s
    } else {
        s.skip(s.len() - cap)
    }
}

/// The slot that holds the byte written `age` writes before the cursor
/// reached `cursor`, in a ring of `cap` slots.
spec fn slot_of(cursor: int, age: int, cap: int) -> int {
    if age < cursor {
        cursor - 1 - age
    } else {
        cursor - 1 - age + cap
    }
}

/// Whether the newest `count` bytes of `history` sit in the slots of `ring`
/// just behind `cursor`, the newest nearest to it.
spec fn ring_holds(ring: Seq<u8>, cursor: int, history: Seq<u8>, count: int) -> bool {
    &&& 0 <= count <= ring.len()
    &&& count <= history.len()
    &&& 0 <= cursor < ring.len()
    &&& forall|age: int|
        0 <= age < count ==> #[trigger] ring[slot_of(cursor, age, ring.len() as int)]
            == history[history.len() - 1 - age]
}

/// A ring of fixed capacity that stores the bytes a terminal has produced.
/// Once it is full, each new byte replaces the oldest one.
pub struct ScrollbackBuffer {
    buf: Vec<u8>,
    capacity: usize,
    /// The slot that the next byte goes to.
    write_pos: usize,
    /// How many bytes were ever appended.
    total_written: u64,
    /// Every byte ever appended, in arrival order.
    history: Ghost<Seq<u8>>,
}

impl View for ScrollbackBuffer {
    type V = Seq<u8>;

    /// The bytes that the ring still holds, oldest first.
    open spec fn view(&self) -> Seq<u8> {
        retained(self.history(), self.capacity())
    }
}

impl ScrollbackBuffer {
    /// Every byte ever appended, in arrival order.
    pub closed spec fn history(&self) -> Seq<u8> {
        self.history@
    }

    /// The number of bytes that the ring can hold.
    pub closed spec fn capacity(&self) -> nat {
        self.capacity as nat
    }

    /// The representation invariant.
    pub closed spec fn wf(&self) -> bool {
        &&& 1 <= self.capacity
        &&& self.buf@.len() == self.capacity
        &&& self.total_written == self.history@.len()
        &&& self.history@.len() < self.capacity ==> self.write_pos == self.history@.len()
        &&& ring_holds(
            self.buf@,
            self.write_pos as int,
            self.history@,
            if self.history@.len() <= self.capacity {
                self.history@.len() as int
            } else {
                self.capacity as int
            },
        )
    }

    /// An empty ring of `capacity` bytes.
    pub fn new(capacity: usize) -> (ring: Self)
        requires
            1 <= capacity <= isize::MAX,
        ensures
            ring.wf(),
            ring.capacity() == capacity,
            ring.history() == Seq::<u8>::empty(),
    {
        Self {
            buf: vec![0u8; capacity],
            capacity,
            write_pos: 0,
            total_written: 0,
            history: Ghost(Seq::empty()),
        }
    }

    /// Appends `data`. Where the ring is full, the oldest bytes give way; of a
    /// chunk larger than the ring only the trailing part is kept.
    pub fn append(&mut self, data: &[u8])
        requires
            old(self).wf(),
            old(self).history().len() + data@.len() <= u64::MAX,
        ensures
            final(self).wf(),
            final(self).capacity() == old(self).capacity(),
            final(self).history() == old(self).history() + data@,
            final(self)@ == retained(old(self)@ + data@, old(self).capacity()),
            data@.len() <= old(self).capacity() ==> final(self)@.skip(
                final(self)@.len() - data@.len(),
            ) == data@,
    {
        let n: usize = data.len();
        let cap: usize = self.capacity;
        // Of an oversized chunk, only the trailing `cap` bytes enter the ring.
        let start: usize = if n > cap {
            n - cap
        } else {
            0
        };
        let ghost before = self.history@;
        let mut i: usize = start;
        while i < n
            invariant
                start <= i <= n,
                n == data@.len(),
                cap == self.capacity,
                1 <= cap,
                start == (if n > cap {
                    n - cap
                } else {
                    0
                }),
                self.buf@.len() == cap,
                self.history@ == before,
                self.total_written == before.len(),
                n <= cap && before.len() + i < cap ==> self.write_pos == before.len() + i,
                ring_holds(
                    self.buf@,
                    self.write_pos as int,
                    before + data@.take(i as int),
                    if n > cap {
                        i - start
                    } else if before.len() + i <= cap {
                        before.len() + i
                    } else {
                        cap as int
                    },
                ),
            decreases n - i,
        {
            let ghost ring = self.buf@;
            let ghost cursor = self.write_pos as int;
            let ghost seen = before + data@.take(i as int);
            let byte: u8 = data[i];
            self.buf[self.write_pos] = byte;
            self.write_pos = if self.write_pos + 1 == cap {
                0
            } else {
                self.write_pos + 1
            };
            i = i + 1;
            proof {
                let next = before + data@.take(i as int);
                assert(next =~= seen.push(byte));
                let count = if n > cap {
                    i - start
                } else if before.len() + i <= cap {
                    before.len() + i
                } else {
                    cap as int
                };
                assert forall|age: int| 0 <= age < count implies #[trigger] self.buf@[slot_of(
                    self.write_pos as int,
                    age,
                    cap as int,
                )] == next[next.len() - 1 - age] by {
                    if age > 0 {
                        assert(slot_of(self.write_pos as int, age, cap as int) == slot_of(
                            cursor,
                            age - 1,
                            cap as int,
                        ));
                        assert(ring[slot_of(cursor, age - 1, cap as int)] == seen[seen.len() - 1
                            - (age - 1)]);
                    }
                }
            }
        }
        self.total_written = self.total_written + n as u64;
        proof {
            assert(data@.take(n as int) =~= data@);
            self.history = Ghost(before + data@);
            lemma_retained_append(before, data@, cap as nat);
            if n <= cap {
                lemma_retained_ends_with(before, data@, cap as nat);
            }
        }
    }

    /// The bytes that the ring still holds, oldest first, as a fresh vector.
    pub fn get_contents(&self) -> (out: Vec<u8>)
        requires
            self.wf(),
        ensures
            out@ == self@,
    {
        let mut out: Vec<u8> = Vec::new();
        if self.total_written < self.capacity as u64 {
            let len: usize = self.total_written as usize;
            out.extend_from_slice(slice_subrange(self.buf.as_slice(), 0, len));
            proof {
                assert forall|j: int| 0 <= j < len implies out@[j] == self.history@[j] by {
                    assert(slot_of(self.write_pos as int, len - 1 - j, self.capacity as int) == j);
                }
                assert(out@ =~= self@);
            }
        } else {
            let cap: usize = self.capacity;
            let cursor: usize = self.write_pos;
            out.extend_from_slice(slice_subrange(self.buf.as_slice(), cursor, cap));
            out.extend_from_slice(slice_subrange(self.buf.as_slice(), 0, cursor));
            proof {
                let total = self.history@.len() as int;
                assert forall|j: int| 0 <= j < cap implies out@[j] == self.history@[total - cap
                    + j] by {
                    let slot = slot_of(cursor as int, cap - 1 - j, cap as int);
                    assert(slot == if j < cap - cursor {
                        cursor + j
                    } else {
                        j - (cap - cursor)
                    });
                    assert(self.buf@[slot] == self.history@[total - 1 - (cap - 1 - j)]);
                }
                assert(out@ =~= self@);
            }
        }
        out
    }

    /// The number of bytes that the ring holds.
    pub fn len(&self) -> (n: usize)
        requires
            self.wf(),
        ensures
            n == self@.len(),
    {
        if self.total_written <= self.capacity as u64 {
            self.total_written as usize
        } else {
            self.capacity
        }
    }

    /// The number of bytes that were ever appended.
    pub fn total_written(&self) -> (n: u64)
        requires
            self.wf(),
        ensures
            n == self.history().len(),
    {
        self.total_written
    }

    /// Whether nothing was ever appended.
    pub fn is_empty(&self) -> (empty: bool)
        requires
            self.wf(),
        ensures
            empty == (self.history().len() == 0),
            empty == (self@.len() == 0),
    {
        self.total_written == 0
    }
}

/// What a ring holds after an append depends only on what it held before:
/// bytes that were dropped never matter again.
pub proof fn lemma_retained_append(history: Seq<u8>, data: Seq<u8>, cap: nat)
    ensures
        retained(retained(history, cap) + data, cap) == retained(history + data, cap),
{
    assert(retained(retained(history, cap) + data, cap) =~= retained(history + data, cap));
}

/// After a chunk that fits the ring was appended, the ring ends with it.
pub proof fn lemma_retained_ends_with(history: Seq<u8>, data: Seq<u8>, cap: nat)
    requires
        data.len() <= cap,
    ensures
        retained(history + data, cap).len() >= data.len(),
        retained(history + data, cap).skip(retained(history + data, cap).len() - data.len())
            == data,
{
    let kept = retained(history + data, cap);
    assert(kept.skip(kept.len() - data.len()) =~= data);
}

/// The bytes of all `chunks`, one after the other.
pub open spec fn concat_all(chunks: Seq<Seq<u8>>) -> Seq<u8>
    decreases chunks.len(),
{
    if chunks.len() == 0 {
        Seq::empty()
    } else {
        concat_all(chunks.drop_last()) + chunks.last()
    }
}

/// What a ring of capacity `cap` holds after `chunks` were appended to it one
/// by one, beginning with an empty ring.
pub open spec fn after_appends(chunks: Seq<Seq<u8>>, cap: nat) -> Seq<u8>
    decreases chunks.len(),
{
    if chunks.len() == 0 {
        Seq::empty()
    } else {
        retained(after_appends(chunks.drop_last(), cap) + chunks.last(), cap)
    }
}

/// After any sequence of appends, the ring holds the last bytes of their
/// concatenation: all of them, or as many as its capacity where they are
/// more.
pub proof fn lemma_appends_keep_tail(chunks: Seq<Seq<u8>>, cap: nat)
    ensures
        after_appends(chunks, cap) == retained(concat_all(chunks), cap),
        after_appends(chunks, cap).len() == (if concat_all(chunks).len() <= cap {
            concat_all(chunks).len()
        } else {
            cap
        }),
    decreases chunks.len(),
{
    if chunks.len() > 0 {
        lemma_appends_keep_tail(chunks.drop_last(), cap);
        lemma_retained_append(concat_all(chunks.drop_last()), chunks.last(), cap);
    }
}

/// The ring holds as many bytes as were appended, up to its capacity, and
/// they are the last ones appended.
pub proof fn lemma_retained_is_tail(history: Seq<u8>, cap: nat)
    ensures
        retained(history, cap).len() == (if history.len() <= cap {
            history.len()
        } else {
            cap
        }),
        forall|j: int|
            0 <= j < retained(history, cap).len() ==> #[trigger] retained(history, cap)[j]
                == history[history.len() - retained(history, cap).len() + j],
{
}

} // verus!
