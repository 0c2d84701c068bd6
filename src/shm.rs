use vstd::prelude::*;
use std::sync::atomic::{AtomicUsize, Ordering};

verus! {

/// The number of random characters in a region name.
pub const NAME_LEN: usize = 10;

/// An ASCII digit or letter.
pub open spec fn is_ascii_alphanumeric(b: u8) -> bool {
    (48 <= b <= 57) || (65 <= b <= 90) || (97 <= b <= 122)
}

/// Relies on rand's `Alphanumeric` distribution, sampled with the
/// thread-local generator: one byte among the ASCII letters and digits.
#[verifier::external_body]
fn random_alphanumeric() -> (b: u8)
    ensures
        is_ascii_alphanumeric(b),
{
    rand::Rng::sample(&mut rand::thread_rng(), rand::distributions::Alphanumeric)
}

/// A fresh name for a shared-memory object: a slash followed by `NAME_LEN`
/// random ASCII letters and digits.
pub fn fresh_region_name() -> (r: Vec<u8>)
    ensures
        r@.len() == NAME_LEN + 1,
        r@[0] == 47,
        forall|i: int| 1 <= i < r@.len() ==> is_ascii_alphanumeric(#[trigger] r@[i]),
{
    let mut name: Vec<u8> = Vec::new();
    name.push(47u8);
    let mut i: usize = 0;
    while i < NAME_LEN
        invariant
            i <= NAME_LEN,
            name@.len() == i + 1,
            name@[0] == 47,
            forall|j: int| 1 <= j < name@.len() ==> is_ascii_alphanumeric(#[trigger] name@[j]),
        decreases NAME_LEN - i,
    {
        let b = random_alphanumeric();
        name.push(b);
        i = i + 1;
    }
    name
}

/// A handle release that saw this many live handles just before it is the
/// one that must destroy the payload and unmap the region.
pub open spec fn release_is_last(prev: nat) -> bool {
    prev == 1
}

/// Decides, from the counter value a release replaced, whether that release
/// was the last one.
pub fn is_last_release(prev: usize) -> (r: bool)
    ensures
        r == release_is_last(prev as nat),
{
    prev == 1
}

/// The header placed at the start of a shared region: a counter of the live
/// handles in all processes, followed by the payload. The counter is only
/// touched through atomic operations, so other processes may change it at
/// any time; nothing is assumed of its value between two operations.
pub struct ShmInner<T> {
    ref_ctr: AtomicUsize,
    data: T,
}

impl<T> ShmInner<T> {
    /// The payload the header carries.
    pub closed spec fn payload(&self) -> T {
        self.data
    }

    /// A header for a region with one handle.
    pub fn new(data: T) -> (r: Self)
        ensures
            r.payload() == data,
    {
        ShmInner { ref_ctr: AtomicUsize::new(1), data: data }
    }

    /// Records one more live handle and returns the count it replaced.
    pub fn increment_ref_ctr(&mut self) -> (prev: usize)
        ensures
            final(self).payload() == old(self).payload(),
    {
        self.ref_ctr.fetch_add(1, Ordering::SeqCst)
    }

    /// Records that one handle is gone. Returns the count the atomic
    /// decrement replaced, and whether that makes this the last release,
    /// the one that must destroy the payload and unmap the region.
    pub fn decrement_ref_ctr(&mut self) -> (r: (usize, bool))
        ensures
            r.1 == release_is_last(r.0 as nat),
            final(self).payload() == old(self).payload(),
    {
        let prev = self.ref_ctr.fetch_sub(1, Ordering::SeqCst);
        (prev, is_last_release(prev))
    }

    /// The current number of live handles, as last seen by this process.
    pub fn ref_count(&self) -> usize {
        self.ref_ctr.load(Ordering::SeqCst)
    }

    /// The payload, for reading.
    pub fn data(&self) -> (r: &T)
        ensures
            *r == self.payload(),
    {
        &self.data
    }

    /// The payload, for writing in place.
    pub fn get_raw_data(&mut self) -> (r: &mut T)
        ensures
            *r == old(self).payload(),
            final(self).payload() == *final(r),
    {
        &mut self.data
    }
}

/// What happens to the handles of a region: one is duplicated, or one is
/// released.
#[derive(Copy, Clone, Debug, PartialEq, Eq, Structural)]
pub enum HandleEvent {
    Duplicate,
    Release,
}

/// The handle count after `evs`, starting from `n` live handles.
pub open spec fn count_after(n: nat, evs: Seq<HandleEvent>) -> int
    decreases evs.len(),
{
    if evs.len() == 0 {
        n as int
    } else {
        let c = count_after(n, evs.drop_last());
        match evs.last() {
            HandleEvent::Duplicate => c + 1,
            HandleEvent::Release => c - 1,
        }
    }
}

/// Every event in `evs` is made through a live handle: before each one the
/// count is at least one.
pub open spec fn live_throughout(n: nat, evs: Seq<HandleEvent>) -> bool
    decreases evs.len(),
{
    if evs.len() == 0 {
        true
    } else {
        live_throughout(n, evs.drop_last()) && count_after(n, evs.drop_last()) >= 1
    }
}

/// How many releases in `evs` saw a count of one, and so destroyed the
/// payload.
pub open spec fn teardowns(n: nat, evs: Seq<HandleEvent>) -> nat
    decreases evs.len(),
{
    if evs.len() == 0 {
        0
    } else {
        let c = count_after(n, evs.drop_last());
        teardowns(n, evs.drop_last()) + if evs.last() == HandleEvent::Release && c >= 0
            && release_is_last(c as nat) {
            1nat
        } else {
            0nat
        }
    }
}

/// From the single handle a region is created with, through any sequence of
/// duplications and releases each made through a live handle: the payload
/// has been destroyed exactly once if the count has reached zero, and not at
/// all otherwise.
pub proof fn lemma_teardown_exactly_once(evs: Seq<HandleEvent>)
    requires
        live_throughout(1, evs),
    ensures
        count_after(1, evs) >= 0,
        teardowns(1, evs) == if count_after(1, evs) == 0 {
            1nat
        } else {
            0nat
        },
    decreases evs.len(),
{
    if evs.len() > 0 {
        lemma_teardown_exactly_once(evs.drop_last());
    }
}

/// Duplicating one of `n` live handles and releasing the duplicate leaves
/// the count where it was and destroys nothing.
pub proof fn lemma_clone_then_drop(n: nat)
    requires
        n >= 1,
    ensures
        live_throughout(n, seq![HandleEvent::Duplicate, HandleEvent::Release]),
        count_after(n, seq![HandleEvent::Duplicate, HandleEvent::Release]) == n,
        teardowns(n, seq![HandleEvent::Duplicate, HandleEvent::Release]) == 0,
{
    let evs = seq![HandleEvent::Duplicate, HandleEvent::Release];
    let one = seq![HandleEvent::Duplicate];
    assert(evs.drop_last() =~= one);
    assert(one.drop_last() =~= Seq::<HandleEvent>::empty());
    assert(one.last() == HandleEvent::Duplicate);
    assert(evs.last() == HandleEvent::Release);
    assert(count_after(n, Seq::<HandleEvent>::empty()) == n);
    assert(teardowns(n, Seq::<HandleEvent>::empty()) == 0);
    assert(live_throughout(n, Seq::<HandleEvent>::empty()));
    assert(live_throughout(n, one));
    assert(live_throughout(n, evs));
    assert(count_after(n, one) == n + 1);
    assert(teardowns(n, one) == 0);
}

} // verus!
