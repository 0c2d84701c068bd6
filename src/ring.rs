use vstd::prelude::*;

verus! {

/// Number of slots in every ring buffer.
pub const RING_BUFFER_SIZE: usize = 8;

/// Returned by `RingBuffer::write` when the slot under the write index is
/// still occupied.
#[derive(Copy, Clone, Debug, PartialEq, Eq, Structural)]
pub enum RingBufferError {
    Overflow,
}

/// An index into a circular buffer of `bufsize` slots.
#[derive(Copy, Clone, Debug)]
pub struct RingBufferIdx {
    bufsize: usize,
    idx: usize,
}

impl RingBufferIdx {
    /// The position the index designates.
    pub closed spec fn index(&self) -> int {
        self.idx as int
    }

    /// The number of slots of the buffer the index walks.
    pub closed spec fn size(&self) -> int {
        self.bufsize as int
    }

    /// The index lies inside a non-empty buffer.
    pub open spec fn wf(&self) -> bool {
        0 <= self.index() < self.size()
    }

    pub fn new(start_idx: usize, bufsize: usize) -> (r: RingBufferIdx)
        requires
            start_idx < bufsize,
        ensures
            r.wf(),
            r.index() == start_idx,
            r.size() == bufsize,
    {
        RingBufferIdx { bufsize: bufsize, idx: start_idx }
    }

    /// Advances the index by one slot, wrapping to zero at the end of the
    /// buffer, and returns the advanced index.
    pub fn forward(&mut self) -> (r: RingBufferIdx)
        requires
            old(self).wf(),
        ensures
            final(self).wf(),
            final(self).size() == old(self).size(),
            final(self).index() == (old(self).index() + 1) % old(self).size(),
            final(self).index() == if old(self).index() + 1 == old(self).size() {
                0
            } else {
                old(self).index() + 1
            },
            r == *final(self),
    {
        let n = self.bufsize;
        let i = self.idx;
        self.idx = i + 1;
        self.idx = self.idx % n;
        proof {
            assert((i + 1) % (n as int) == if i + 1 == n { 0 } else { i + 1 }) by (nonlinear_arith)
                requires
                    i < n,
            ;
        }
        *self
    }

    pub fn get(&self) -> (r: usize)
        ensures
            r == self.index(),
    {
        self.idx
    }
}

/// The slot `k` places after `from` on a ring of `RING_BUFFER_SIZE` slots.
pub open spec fn ring_pos(from: int, k: int) -> int {
    (from + k) % (RING_BUFFER_SIZE as int)
}

/// A fixed-capacity circular buffer of optional slots with separate read and
/// write indices. Writers look only at the slot under the write index and
/// readers only at the slot under the read index.
#[derive(Debug)]
pub struct RingBuffer<T: Copy> {
    write_idx: RingBufferIdx,
    read_idx: RingBufferIdx,
    buffer: [Option<T>; RING_BUFFER_SIZE],
}

impl<T: Copy> View for RingBuffer<T> {
    type V = Seq<T>;

    /// The messages held, oldest first.
    closed spec fn view(&self) -> Seq<T> {
        Seq::new(self.len(), |k: int| self.slots()[ring_pos(self.read_pos(), k)]->Some_0)
    }
}

impl<T: Copy> RingBuffer<T> {
    /// The slots, by position in the buffer.
    pub closed spec fn slots(&self) -> Seq<Option<T>> {
        self.buffer@
    }

    pub closed spec fn read_pos(&self) -> int {
        self.read_idx.index()
    }

    pub closed spec fn write_pos(&self) -> int {
        self.write_idx.index()
    }

    /// The number of occupied slots, counted from the read index.
    pub closed spec fn len(&self) -> nat {
        if self.slots()[self.read_pos()] is None {
            0
        } else if self.write_pos() == self.read_pos() {
            RING_BUFFER_SIZE as nat
        } else {
            ((self.write_pos() - self.read_pos()) % (RING_BUFFER_SIZE as int)) as nat
        }
    }

    /// Both indices lie in the buffer; the occupied slots are exactly the
    /// `len()` slots starting at the read index, and the write index is the
    /// first slot after them.
    pub closed spec fn wf(&self) -> bool {
        &&& self.read_idx.wf()
        &&& self.write_idx.wf()
        &&& self.read_idx.size() == RING_BUFFER_SIZE
        &&& self.write_idx.size() == RING_BUFFER_SIZE
        &&& self.write_pos() == ring_pos(self.read_pos(), self.len() as int)
        &&& forall|k: int|
            0 <= k < RING_BUFFER_SIZE ==> (#[trigger] self.slots()[ring_pos(self.read_pos(), k)]
                is Some <==> k < self.len())
    }

    /// Indices always lie in `[0, RING_BUFFER_SIZE)`; the buffer holds at most
    /// `RING_BUFFER_SIZE` messages; it is full exactly when the slot under the
    /// write index is present and empty exactly when the slot under the read
    /// index is absent.
    pub proof fn lemma_wf_facts(&self)
        requires
            self.wf(),
        ensures
            0 <= self.read_pos() < RING_BUFFER_SIZE,
            0 <= self.write_pos() < RING_BUFFER_SIZE,
            self.slots().len() == RING_BUFFER_SIZE,
            self@.len() <= RING_BUFFER_SIZE,
            self@.len() == RING_BUFFER_SIZE <==> self.slots()[self.write_pos()] is Some,
            self@.len() == 0 <==> self.slots()[self.read_pos()] is None,
    {
        let n = self.len() as int;
        assert(ring_pos(self.read_pos(), 0) == self.read_pos());
        if n < RING_BUFFER_SIZE {
            assert(self.slots()[ring_pos(self.read_pos(), n)] is None);
        } else {
            assert(self.slots()[ring_pos(self.read_pos(), 0)] is Some);
        }
    }

    pub fn new() -> (r: RingBuffer<T>)
        ensures
            r.wf(),
            r@ == Seq::<T>::empty(),
            r.read_pos() == 0,
            r.write_pos() == 0,
            forall|i: int| 0 <= i < RING_BUFFER_SIZE ==> #[trigger] r.slots()[i] is None,
    {
        let r = RingBuffer {
            write_idx: RingBufferIdx::new(0, RING_BUFFER_SIZE),
            read_idx: RingBufferIdx::new(0, RING_BUFFER_SIZE),
            buffer: [None; RING_BUFFER_SIZE],
        };
        assert(r.len() == 0);
        assert(r@ =~= Seq::<T>::empty());
        r
    }

    /// The content of the slot at position `i`.
    pub fn slot(&self, i: usize) -> (r: Option<T>)
        requires
            i < RING_BUFFER_SIZE,
        ensures
            r == self.slots()[i as int],
    {
        self.buffer[i]
    }

    /// Takes the oldest message, if there is one, and advances the read index
    /// past its slot.
    pub fn try_read(&mut self) -> (r: Option<T>)
        requires
            old(self).wf(),
        ensures
            final(self).wf(),
            r == if old(self)@.len() == 0 { None } else { Some(old(self)@[0]) },
            final(self)@ == if old(self)@.len() == 0 { old(self)@ } else { old(self)@.drop_first() },
            r is None ==> *final(self) == *old(self),
            r is Some ==> old(self).slots()[old(self).read_pos()] == r,
            r is Some ==> final(self).slots()[old(self).read_pos()] is None,
            r is Some ==> final(self).read_pos() == ring_pos(old(self).read_pos(), 1),
            final(self).write_pos() == old(self).write_pos(),
            forall|j: int|
                0 <= j < RING_BUFFER_SIZE && j != old(self).read_pos() ==> #[trigger] final(self).slots()[j]
                    == old(self).slots()[j],
    {
        proof {
            self.lemma_wf_facts();
        }
        let pos = self.read_idx.get();
        let current = self.buffer[pos];
        if current.is_some() {
            self.buffer[pos] = None;
            self.read_idx.forward();
            proof {
                self.lemma_after_read(*old(self));
            }
        }
        current
    }

    #[verifier::rlimit(60)]
    proof fn lemma_after_read(&self, prev: RingBuffer<T>)
        requires
            prev.wf(),
            prev@.len() > 0,
            self.write_idx == prev.write_idx,
            self.read_idx.wf(),
            self.read_idx.size() == RING_BUFFER_SIZE,
            self.read_pos() == ring_pos(prev.read_pos(), 1),
            self.slots() == prev.slots().update(prev.read_pos(), None),
        ensures
            self.wf(),
            self@ == prev@.drop_first(),
    {
        prev.lemma_wf_facts();
        let r = prev.read_pos();
        let n = prev.len() as int;
        let c = RING_BUFFER_SIZE as int;
        assert(prev.slots()[ring_pos(r, 0)] is Some);
        assert(forall|k: int|
            0 <= k < c - 1 ==> #[trigger] ring_pos(self.read_pos(), k) == ring_pos(r, k + 1));
        assert(ring_pos(self.read_pos(), c - 1) == r);
        if n == 1 {
            assert(prev.slots()[ring_pos(r, 1)] is None);
            assert(self.slots()[self.read_pos()] is None);
            assert(self.len() == 0);
        } else {
            assert(prev.slots()[ring_pos(r, 1)] is Some);
            assert(self.slots()[self.read_pos()] is Some);
            assert(self.len() == n - 1);
        }
        assert forall|k: int| 0 <= k < c implies (#[trigger] self.slots()[ring_pos(
            self.read_pos(),
            k,
        )] is Some <==> k < self.len()) by {
            if k + 1 < c {
                assert(prev.slots()[ring_pos(r, k + 1)] is Some <==> k + 1 < n);
            }
        }
        assert(self@ =~= prev@.drop_first()) by {
            assert forall|k: int| 0 <= k < self.len() implies self@[k] == prev@.drop_first()[k] by {
                assert(ring_pos(self.read_pos(), k) == ring_pos(r, k + 1));
            }
        }
    }

    /// Stores `value` in the slot under the write index and advances that
    /// index, or reports `Overflow` when that slot is still occupied.
    pub fn write(&mut self, value: T) -> (r: Result<(), RingBufferError>)
        requires
            old(self).wf(),
        ensures
            final(self).wf(),
            r is Ok <==> old(self)@.len() < RING_BUFFER_SIZE,
            r is Ok <==> old(self).slots()[old(self).write_pos()] is None,
            r is Ok ==> final(self)@ == old(self)@.push(value),
            r is Ok ==> final(self).slots()[old(self).write_pos()] == Some(value),
            r is Ok ==> final(self).write_pos() == ring_pos(old(self).write_pos(), 1),
            r is Err ==> *final(self) == *old(self),
            r is Err ==> r == Err::<(), RingBufferError>(RingBufferError::Overflow),
            final(self).read_pos() == old(self).read_pos(),
            forall|j: int|
                0 <= j < RING_BUFFER_SIZE && j != old(self).write_pos() ==> #[trigger] final(self).slots()[j]
                    == old(self).slots()[j],
    {
        proof {
            self.lemma_wf_facts();
        }
        let pos = self.write_idx.get();
        if self.buffer[pos].is_none() {
            self.buffer[pos] = Some(value);
            self.write_idx.forward();
            proof {
                self.lemma_after_write(*old(self), value);
            }
            Ok(())
        } else {
            Err(RingBufferError::Overflow)
        }
    }

    proof fn lemma_after_write(&self, prev: RingBuffer<T>, value: T)
        requires
            prev.wf(),
            prev@.len() < RING_BUFFER_SIZE,
            self.read_idx == prev.read_idx,
            self.write_idx.wf(),
            self.write_idx.size() == RING_BUFFER_SIZE,
            self.write_pos() == ring_pos(prev.write_pos(), 1),
            self.slots() == prev.slots().update(prev.write_pos(), Some(value)),
        ensures
            self.wf(),
            self@ == prev@.push(value),
    {
        prev.lemma_wf_facts();
        let r = prev.read_pos();
        let n = prev.len() as int;
        let c = RING_BUFFER_SIZE as int;
        assert forall|k: int| 0 <= k < c && k != n implies #[trigger] ring_pos(r, k)
            != prev.write_pos() by {}
        assert(self.slots()[ring_pos(r, 0)] is Some);
        assert(self.len() == n + 1);
        assert forall|k: int| 0 <= k < c implies (#[trigger] self.slots()[ring_pos(r, k)] is Some
            <==> k < self.len()) by {
            if k != n {
                assert(prev.slots()[ring_pos(r, k)] is Some <==> k < n);
            }
        }
        assert(self@ =~= prev@.push(value)) by {
            assert forall|k: int| 0 <= k < n implies self@[k] == prev@[k] by {
                assert(ring_pos(r, k) != prev.write_pos());
            }
        }
    }
}

} // verus!
