use shm_queue::queue::{pop_step, push_step, timed_pop_step, try_pop_step, Event, Step};
use shm_queue::ring::{RingBuffer, RING_BUFFER_SIZE};

#[test]
fn single_threaded_round_trip() {
    let mut rb = RingBuffer::new();
    assert_eq!(Step::Absent, try_pop_step(&mut rb));
    assert_eq!(Step::Pushed, push_step(&mut rb, 1));
    assert_eq!(Step::Popped(1), try_pop_step(&mut rb));
    assert_eq!(Step::Absent, try_pop_step(&mut rb));
}

#[test]
fn fill_block_then_drain() {
    let mut rb = RingBuffer::new();
    for i in 0..8 {
        assert_eq!(Step::Pushed, push_step(&mut rb, i));
    }
    assert_eq!(Step::WaitNotFull, push_step(&mut rb, 8));
    assert_eq!(Step::Popped(0), pop_step(&mut rb));
    assert_eq!(Step::Pushed, push_step(&mut rb, 8));
    for i in 1..9 {
        assert_eq!(Step::Popped(i), pop_step(&mut rb));
    }
    assert_eq!(Step::WaitNotEmpty, pop_step(&mut rb));
}

#[test]
fn pushes_come_out_in_order() {
    let mut rb = RingBuffer::new();
    let vals = [5u64, 3, 9, 1, 7];
    for v in vals {
        assert_eq!(Step::Pushed, push_step(&mut rb, v));
    }
    for v in vals {
        assert_eq!(Step::Popped(v), pop_step(&mut rb));
    }
}

#[test]
fn push_then_pop_returns_the_value() {
    let mut rb = RingBuffer::new();
    assert_eq!(Step::Pushed, push_step(&mut rb, (42i32, 7u32)));
    assert_eq!(Step::Popped((42, 7)), pop_step(&mut rb));
    assert_eq!(Step::WaitNotEmpty, pop_step(&mut rb));
}

#[test]
fn one_pop_frees_exactly_one_push() {
    let mut rb = RingBuffer::new();
    for i in 0..RING_BUFFER_SIZE {
        assert_eq!(Step::Pushed, push_step(&mut rb, i));
    }
    assert_eq!(Step::WaitNotFull, push_step(&mut rb, 100));
    assert_eq!(Step::Popped(0), pop_step(&mut rb));
    assert_eq!(Step::Pushed, push_step(&mut rb, 100));
    assert_eq!(Step::WaitNotFull, push_step(&mut rb, 101));
}

#[test]
fn try_pop_drains_full_ring_then_absent() {
    let mut rb = RingBuffer::new();
    assert_eq!(Step::Absent, try_pop_step::<u16>(&mut rb));
    for i in 0..RING_BUFFER_SIZE as u16 {
        push_step(&mut rb, i);
    }
    for i in 0..RING_BUFFER_SIZE as u16 {
        assert_eq!(Step::Popped(i), try_pop_step(&mut rb));
    }
    assert_eq!(Step::Absent, try_pop_step(&mut rb));
}

#[test]
fn timed_pop_takes_at_once_when_present() {
    let mut rb = RingBuffer::new();
    push_step(&mut rb, 3u8);
    assert_eq!(Step::Popped(3), timed_pop_step(&mut rb, Event::Acquired));
}

#[test]
fn timed_pop_waits_once_when_empty() {
    let mut rb: RingBuffer<u8> = RingBuffer::new();
    assert_eq!(Step::TimedWaitNotEmpty, timed_pop_step(&mut rb, Event::Acquired));
    assert_eq!(Step::Absent, timed_pop_step(&mut rb, Event::TimedOut));
}

#[test]
fn timed_pop_after_wakeup() {
    let mut rb: RingBuffer<u8> = RingBuffer::new();
    assert_eq!(Step::Absent, timed_pop_step(&mut rb, Event::Woken));
    push_step(&mut rb, 9);
    assert_eq!(Step::Popped(9), timed_pop_step(&mut rb, Event::Woken));
}

#[test]
fn timed_out_pop_takes_nothing() {
    let mut rb = RingBuffer::new();
    push_step(&mut rb, 4u8);
    assert_eq!(Step::Absent, timed_pop_step(&mut rb, Event::TimedOut));
    assert_eq!(Step::Popped(4), pop_step(&mut rb));
}

#[test]
fn interleaved_operations_lose_nothing() {
    let mut rb = RingBuffer::new();
    let mut stored = Vec::new();
    let mut taken = Vec::new();
    let mut next = 0u32;
    for round in 0..40u32 {
        let pushes = round % 5 + 1;
        for _ in 0..pushes {
            if push_step(&mut rb, next) == Step::Pushed {
                stored.push(next);
            }
            next += 1;
        }
        for _ in 0..(round % 3 + 1) {
            if let Step::Popped(v) = try_pop_step(&mut rb) {
                taken.push(v);
            }
        }
    }
    while let Step::Popped(v) = try_pop_step(&mut rb) {
        taken.push(v);
    }
    assert_eq!(stored, taken);
    assert!(stored.len() < next as usize);
}
