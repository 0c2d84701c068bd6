use shm_queue::ring::{RingBuffer, RingBufferError, RingBufferIdx, RING_BUFFER_SIZE};

#[test]
fn forward() {
    let test_wrapping = |idx, size, next_idx| {
        let mut rb_idx = RingBufferIdx::new(idx, size);
        assert_eq!(next_idx, rb_idx.forward().get());
    };

    test_wrapping(0, 10, 1);
    test_wrapping(0, 1, 0);
    test_wrapping(9, 10, 0);
}

#[test]
fn rw() {
    let mut rb = RingBuffer::new();
    assert_eq!(None, rb.try_read());
    assert_eq!(Ok(()), rb.write(1));
    assert_eq!(Some(1), rb.try_read());
    assert_eq!(None, rb.try_read());
    assert_eq!(Ok(()), rb.write(2));
    assert_eq!(Ok(()), rb.write(3));
    assert_eq!(Ok(()), rb.write(4));
    assert_eq!(Some(2), rb.try_read());
    assert_eq!(Some(3), rb.try_read());
    assert_eq!(Some(4), rb.try_read());
    assert_eq!(None, rb.try_read());
}

#[test]
fn overflow() {
    let mut rb = RingBuffer::new();
    for i in 0..RING_BUFFER_SIZE {
        rb.write(i).unwrap();
    }
    assert_eq!(Err(RingBufferError::Overflow), rb.write(RING_BUFFER_SIZE));
}

#[test]
fn overflow_escape() {
    let mut rb = RingBuffer::new();
    for i in 0..RING_BUFFER_SIZE {
        rb.write(i).unwrap();
    }
    assert_eq!(Err(RingBufferError::Overflow), rb.write(RING_BUFFER_SIZE));

    assert_eq!(Some(0), rb.try_read());
    assert_eq!(Ok(()), rb.write(RING_BUFFER_SIZE));
    assert_eq!(Some(RING_BUFFER_SIZE), rb.slot(0));
}

#[test]
fn index_new_keeps_start() {
    let idx = RingBufferIdx::new(3, 8);
    assert_eq!(3, idx.get());
}

#[test]
fn index_wraps_after_full_turn() {
    let mut idx = RingBufferIdx::new(0, RING_BUFFER_SIZE);
    for _ in 0..RING_BUFFER_SIZE {
        idx.forward();
    }
    assert_eq!(0, idx.get());
}

#[test]
fn new_ring_is_all_absent() {
    let rb: RingBuffer<u8> = RingBuffer::new();
    for i in 0..RING_BUFFER_SIZE {
        assert_eq!(None, rb.slot(i));
    }
}

#[test]
fn read_clears_the_slot_it_takes() {
    let mut rb = RingBuffer::new();
    rb.write(7u32).unwrap();
    assert_eq!(Some(7), rb.slot(0));
    assert_eq!(Some(7), rb.try_read());
    assert_eq!(None, rb.slot(0));
}

#[test]
fn writes_wrap_around_the_ring() {
    let mut rb = RingBuffer::new();
    for round in 0..3u32 {
        for i in 0..RING_BUFFER_SIZE as u32 {
            assert_eq!(Ok(()), rb.write(round * 100 + i));
        }
        for i in 0..RING_BUFFER_SIZE as u32 {
            assert_eq!(Some(round * 100 + i), rb.try_read());
        }
        assert_eq!(None, rb.try_read());
    }
}

#[test]
fn overflow_leaves_contents_unchanged() {
    let mut rb = RingBuffer::new();
    for i in 0..RING_BUFFER_SIZE {
        rb.write(i).unwrap();
    }
    assert_eq!(Err(RingBufferError::Overflow), rb.write(99));
    for i in 0..RING_BUFFER_SIZE {
        assert_eq!(Some(i), rb.try_read());
    }
    assert_eq!(None, rb.try_read());
}

#[test]
fn write_and_read_touch_only_their_slot() {
    let mut rb = RingBuffer::new();
    rb.write(10u32).unwrap();
    rb.write(11).unwrap();
    rb.write(12).unwrap();
    assert_eq!(Some(10), rb.try_read());
    assert_eq!(None, rb.slot(0));
    assert_eq!(Some(11), rb.slot(1));
    assert_eq!(Some(12), rb.slot(2));
    rb.write(13).unwrap();
    assert_eq!(Some(13), rb.slot(3));
    for i in 4..RING_BUFFER_SIZE {
        assert_eq!(None, rb.slot(i));
    }
    assert_eq!(Some(11), rb.slot(1));
}
