use vstd::prelude::*;
use crate::ring::{ring_pos, RingBuffer, RING_BUFFER_SIZE};

verus! {

/// The messages left after a push on a queue holding `q`, where the push
/// does not block.
pub open spec fn push_model<T>(q: Seq<T>, v: T) -> Seq<T> {
    if push_blocks(q) {
        q
    } else {
        q.push(v)
    }
}

/// A push blocks exactly when every slot is taken.
pub open spec fn push_blocks<T>(q: Seq<T>) -> bool {
    q.len() >= RING_BUFFER_SIZE
}

/// What a non-blocking pop takes from a queue holding `q`.
pub open spec fn pop_value<T>(q: Seq<T>) -> Option<T> {
    if q.len() == 0 {
        None
    } else {
        Some(q[0])
    }
}

/// The messages left after a non-blocking pop on a queue holding `q`.
pub open spec fn pop_model<T>(q: Seq<T>) -> Seq<T> {
    if q.len() == 0 {
        q
    } else {
        q.drop_first()
    }
}

/// The messages held after pushing `vals` in order, none of which blocks.
pub open spec fn push_all<T>(q: Seq<T>, vals: Seq<T>) -> Seq<T>
    decreases vals.len(),
{
    if vals.len() == 0 {
        q
    } else {
        push_model(push_all(q, vals.drop_last()), vals.last())
    }
}

/// What `n` successive non-blocking pops on a queue holding `q` return.
pub open spec fn pop_all<T>(q: Seq<T>, n: nat) -> Seq<Option<T>>
    decreases n,
{
    if n == 0 {
        Seq::empty()
    } else {
        seq![pop_value(q)] + pop_all(pop_model(q), (n - 1) as nat)
    }
}

/// `after` is `before` with `v` stored: the slot under the write index was
/// absent and now holds `v`, the write index moved one slot on, and nothing
/// else changed.
pub open spec fn stored_at_write<T: Copy>(before: RingBuffer<T>, after: RingBuffer<T>, v: T) -> bool {
    &&& before.slots()[before.write_pos()] is None
    &&& after.slots()[before.write_pos()] == Some(v)
    &&& after.write_pos() == ring_pos(before.write_pos(), 1)
    &&& after.read_pos() == before.read_pos()
    &&& forall|j: int|
        0 <= j < RING_BUFFER_SIZE && j != before.write_pos() ==> #[trigger] after.slots()[j]
            == before.slots()[j]
}

/// `after` is `before` with `v` taken: the slot under the read index held
/// `v` and is now absent, the read index moved one slot on, and nothing else
/// changed.
pub open spec fn taken_at_read<T: Copy>(before: RingBuffer<T>, after: RingBuffer<T>, v: T) -> bool {
    &&& before.slots()[before.read_pos()] == Some(v)
    &&& after.slots()[before.read_pos()] is None
    &&& after.read_pos() == ring_pos(before.read_pos(), 1)
    &&& after.write_pos() == before.write_pos()
    &&& forall|j: int|
        0 <= j < RING_BUFFER_SIZE && j != before.read_pos() ==> #[trigger] after.slots()[j]
            == before.slots()[j]
}

/// Where an event in a timed pop comes from.
#[derive(Copy, Clone, Debug, PartialEq, Eq, Structural)]
pub enum Event {
    /// The buffer lock has just been taken for the first time.
    Acquired,
    /// A wait on the not-empty condition returned before its deadline, with
    /// the lock held again.
    Woken,
    /// A wait on the not-empty condition reached its deadline.
    TimedOut,
}

/// What a queue operation, holding the buffer lock, asks its caller to do
/// next.
#[derive(Debug, PartialEq, Eq, Structural)]
pub enum Step<T> {
    /// Wait on the not-full condition, then take the step again.
    WaitNotFull,
    /// Wait on the not-empty condition, then take the step again.
    WaitNotEmpty,
    /// Wait on the not-empty condition until the deadline, then take the
    /// step again with the outcome of that wait.
    TimedWaitNotEmpty,
    /// The value was stored: release the lock, signal not-empty, return.
    Pushed,
    /// A value was taken: release the lock, signal not-full, return it.
    Popped(T),
    /// Nothing was taken: release the lock and return absent.
    Absent,
}

/// One attempt of a blocking push, with the buffer lock held: store `value`
/// if a slot is free, else wait for one.
pub fn push_step<T: Copy>(rb: &mut RingBuffer<T>, value: T) -> (s: Step<T>)
    requires
        old(rb).wf(),
    ensures
        final(rb).wf(),
        final(rb)@ == push_model(old(rb)@, value),
        s == if push_blocks(old(rb)@) {
            Step::<T>::WaitNotFull
        } else {
            Step::<T>::Pushed
        },
        s == Step::<T>::Pushed ==> stored_at_write(*old(rb), *final(rb), value),
        s == Step::<T>::WaitNotFull ==> *final(rb) == *old(rb),
{
    match rb.write(value) {
        Ok(()) => Step::Pushed,
        Err(_) => Step::WaitNotFull,
    }
}

/// One attempt of a blocking pop, with the buffer lock held: take the oldest
/// value if there is one, else wait for one.
pub fn pop_step<T: Copy>(rb: &mut RingBuffer<T>) -> (s: Step<T>)
    requires
        old(rb).wf(),
    ensures
        final(rb).wf(),
        final(rb)@ == pop_model(old(rb)@),
        s == match pop_value(old(rb)@) {
            Some(v) => Step::Popped(v),
            None => Step::<T>::WaitNotEmpty,
        },
        s is Popped ==> taken_at_read(*old(rb), *final(rb), s->Popped_0),
        s == Step::<T>::WaitNotEmpty ==> *final(rb) == *old(rb),
{
    match rb.try_read() {
        Some(v) => Step::Popped(v),
        None => Step::WaitNotEmpty,
    }
}

/// A non-blocking pop, with the buffer lock held: take the oldest value if
/// there is one, else give up.
pub fn try_pop_step<T: Copy>(rb: &mut RingBuffer<T>) -> (s: Step<T>)
    requires
        old(rb).wf(),
    ensures
        final(rb).wf(),
        final(rb)@ == pop_model(old(rb)@),
        s == match pop_value(old(rb)@) {
            Some(v) => Step::Popped(v),
            None => Step::<T>::Absent,
        },
        s is Popped ==> taken_at_read(*old(rb), *final(rb), s->Popped_0),
        s == Step::<T>::Absent ==> *final(rb) == *old(rb),
{
    match rb.try_read() {
        Some(v) => Step::Popped(v),
        None => Step::Absent,
    }
}

/// One step of a pop with a deadline, with the buffer lock held. On first
/// acquiring the lock it takes a value or starts the single timed wait;
/// after that wait it takes a value if one came, and otherwise gives up.
pub fn timed_pop_step<T: Copy>(rb: &mut RingBuffer<T>, event: Event) -> (s: Step<T>)
    requires
        old(rb).wf(),
    ensures
        final(rb).wf(),
        event == Event::TimedOut ==> *final(rb) == *old(rb) && s == Step::<T>::Absent,
        event != Event::TimedOut ==> final(rb)@ == pop_model(old(rb)@),
        event != Event::TimedOut ==> s == match pop_value(old(rb)@) {
            Some(v) => Step::Popped(v),
            None => if event == Event::Acquired {
                Step::<T>::TimedWaitNotEmpty
            } else {
                Step::<T>::Absent
            },
        },
        s is Popped ==> taken_at_read(*old(rb), *final(rb), s->Popped_0),
        !(s is Popped) ==> *final(rb) == *old(rb),
{
    match event {
        Event::TimedOut => Step::Absent,
        Event::Acquired => match rb.try_read() {
            Some(v) => Step::Popped(v),
            None => Step::TimedWaitNotEmpty,
        },
        Event::Woken => match rb.try_read() {
            Some(v) => Step::Popped(v),
            None => Step::Absent,
        },
    }
}

/// Pushes that never block on a queue with room for all of them append the
/// values in order.
proof fn lemma_push_all_appends<T>(q: Seq<T>, vals: Seq<T>)
    requires
        q.len() + vals.len() <= RING_BUFFER_SIZE,
    ensures
        push_all(q, vals) == q + vals,
        forall|i: int| 0 <= i < vals.len() ==> !push_blocks(#[trigger] push_all(q, vals.take(i))),
    decreases vals.len(),
{
    if vals.len() > 0 {
        lemma_push_all_appends(q, vals.drop_last());
        assert(q + vals.drop_last() + seq![vals.last()] =~= q + vals);
        assert forall|i: int| 0 <= i < vals.len() implies !push_blocks(
            #[trigger] push_all(q, vals.take(i)),
        ) by {
            lemma_push_all_appends(q, vals.take(i));
        }
    }
}

/// Successive pops return the held values oldest first, then absent.
proof fn lemma_pop_all_drains<T>(q: Seq<T>, n: nat)
    requires
        n >= q.len(),
    ensures
        pop_all(q, n) == q.map_values(|v: T| Some(v)) + Seq::new(
            (n - q.len()) as nat,
            |i: int| None::<T>,
        ),
    decreases n,
{
    if n > 0 {
        lemma_pop_all_drains(pop_model(q), (n - 1) as nat);
        let tail = pop_all(pop_model(q), (n - 1) as nat);
        if q.len() == 0 {
            assert(pop_all(q, n) =~= Seq::new(n, |i: int| None::<T>));
        } else {
            assert(pop_all(q, n) =~= q.map_values(|v: T| Some(v)) + Seq::new(
                (n - q.len()) as nat,
                |i: int| None::<T>,
            ));
        }
    } else {
        assert(pop_all(q, n) =~= q.map_values(|v: T| Some(v)) + Seq::new(
            (n - q.len()) as nat,
            |i: int| None::<T>,
        ));
    }
}

/// First in, first out: on an empty queue, pushing up to a full buffer's
/// worth of values never blocks, and as many pops then return those values
/// in the order they were pushed.
pub proof fn lemma_fifo<T>(vals: Seq<T>)
    requires
        vals.len() <= RING_BUFFER_SIZE,
    ensures
        forall|i: int|
            0 <= i < vals.len() ==> !push_blocks(#[trigger] push_all(Seq::<T>::empty(), vals.take(i))),
        pop_all(push_all(Seq::<T>::empty(), vals), vals.len()) == vals.map_values(|v: T| Some(v)),
{
    lemma_push_all_appends(Seq::<T>::empty(), vals);
    assert(Seq::<T>::empty() + vals =~= vals);
    lemma_pop_all_drains(vals, vals.len());
    assert(vals.map_values(|v: T| Some(v)) + Seq::new(0, |i: int| None::<T>) =~= vals.map_values(
        |v: T| Some(v),
    ));
}

/// A value pushed on an empty queue is the value the next pop returns, and
/// the queue is empty again afterwards.
pub proof fn lemma_push_pop_round_trip<T>(v: T)
    ensures
        !push_blocks(Seq::<T>::empty()),
        pop_value(push_model(Seq::<T>::empty(), v)) == Some(v),
        pop_model(push_model(Seq::<T>::empty(), v)) == Seq::<T>::empty(),
{
    assert(push_model(Seq::<T>::empty(), v) =~= seq![v]);
    assert(seq![v].drop_first() =~= Seq::<T>::empty());
}

/// Filling an empty queue: each of the first `RING_BUFFER_SIZE` pushes goes
/// through without blocking, and the one after them blocks.
pub proof fn lemma_fill_then_block<T>(vals: Seq<T>)
    requires
        vals.len() == RING_BUFFER_SIZE,
    ensures
        forall|i: int|
            0 <= i < vals.len() ==> !push_blocks(#[trigger] push_all(Seq::<T>::empty(), vals.take(i))),
        push_blocks(push_all(Seq::<T>::empty(), vals)),
{
    lemma_push_all_appends(Seq::<T>::empty(), vals);
}

/// On a full queue, one pop makes room for exactly one more push: that push
/// goes through and the next one blocks.
pub proof fn lemma_pop_frees_one_slot<T>(q: Seq<T>, v: T)
    requires
        q.len() == RING_BUFFER_SIZE,
    ensures
        push_blocks(q),
        !push_blocks(pop_model(q)),
        push_blocks(push_model(pop_model(q), v)),
{
}

/// Non-blocking pops on an empty queue return absent; on a queue filled by
/// pushes they return one held value per call, oldest first, and then
/// absent.
pub proof fn lemma_drain_full<T>(vals: Seq<T>)
    requires
        vals.len() == RING_BUFFER_SIZE,
    ensures
        pop_value(Seq::<T>::empty()) == None::<T>,
        pop_all(push_all(Seq::<T>::empty(), vals), (RING_BUFFER_SIZE + 1) as nat) == vals.map_values(
            |v: T| Some(v),
        ).push(None),
{
    lemma_push_all_appends(Seq::<T>::empty(), vals);
    assert(Seq::<T>::empty() + vals =~= vals);
    lemma_pop_all_drains(vals, (RING_BUFFER_SIZE + 1) as nat);
    assert(vals.map_values(|v: T| Some(v)) + Seq::new(1, |i: int| None::<T>) =~= vals.map_values(
        |v: T| Some(v),
    ).push(None));
}

/// One operation on the buffer, taken under its lock.
pub enum Op<T> {
    /// An attempt to push the value; it goes through only if a slot is free.
    Push(T),
    /// An attempt to take the oldest value; it takes one only if any is held.
    Pop,
}

/// Running `ops` one after another from an empty buffer, in the order in
/// which they took the lock: the values held at the end, the values the
/// pops took, in order, and the values the pushes stored, in order.
pub open spec fn run_ops<T>(ops: Seq<Op<T>>) -> (Seq<T>, Seq<T>, Seq<T>)
    decreases ops.len(),
{
    if ops.len() == 0 {
        (Seq::empty(), Seq::empty(), Seq::empty())
    } else {
        let (q, popped, stored) = run_ops(ops.drop_last());
        match ops.last() {
            Op::Push(v) => if push_blocks(q) {
                (q, popped, stored)
            } else {
                (q.push(v), popped, stored.push(v))
            },
            Op::Pop => match pop_value(q) {
                Some(v) => (pop_model(q), popped.push(v), stored),
                None => (q, popped, stored),
            },
        }
    }
}

/// Whatever order concurrent pushes and pops take the lock in, no stored
/// value is lost or taken twice, and values come out in the order they were
/// stored: the values taken, followed by those still held, are exactly the
/// values stored; and the buffer never holds more than its capacity.
pub proof fn lemma_no_loss_no_duplication<T>(ops: Seq<Op<T>>)
    ensures
        run_ops(ops).1 + run_ops(ops).0 == run_ops(ops).2,
        run_ops(ops).0.len() <= RING_BUFFER_SIZE,
    decreases ops.len(),
{
    if ops.len() == 0 {
        assert(Seq::<T>::empty() + Seq::<T>::empty() =~= Seq::<T>::empty());
    } else {
        lemma_no_loss_no_duplication(ops.drop_last());
        let (q, popped, stored) = run_ops(ops.drop_last());
        match ops.last() {
            Op::Push(v) => {
                assert(popped + q.push(v) =~= (popped + q).push(v));
            },
            Op::Pop => {
                if q.len() > 0 {
                    assert(popped.push(q[0]) + q.drop_first() =~= popped + q);
                }
            },
        }
    }
}

} // verus!
