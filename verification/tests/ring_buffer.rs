use st7701::ring::{RingBuffer, RingError, MAX_STORAGE};
use st7701::stream::Transfer;

fn bytes(n: usize) -> Vec<u8> {
    (0..n).map(|i| (i % 251) as u8).collect()
}

#[test]
fn new_buffer_is_empty() {
    let ring = RingBuffer::new(100, 1000).unwrap();
    assert_eq!(ring.capacity(), 100_000);
    assert_eq!(ring.descriptor_count(), 100);
    assert_eq!(ring.descriptor_size(), 1000);
    assert_eq!(ring.free(), 100_000);
    assert_eq!(ring.write_cursor(), 0);
    assert_eq!(ring.storage().len(), 100_000);
}

#[test]
fn new_rejects_bad_geometry() {
    assert_eq!(RingBuffer::new(0, 16).err(), Some(RingError::NoDescriptors));
    assert_eq!(RingBuffer::new(0, 0).err(), Some(RingError::NoDescriptors));
    assert_eq!(RingBuffer::new(4, 0).err(), Some(RingError::EmptyDescriptor));
    assert_eq!(RingBuffer::new(usize::MAX, 2).err(), Some(RingError::TooLarge));
    assert_eq!(RingBuffer::new(2, usize::MAX).err(), Some(RingError::TooLarge));
    assert_eq!(RingBuffer::new(usize::MAX, 1).err(), Some(RingError::TooLarge));
    assert_eq!(RingBuffer::new(1, MAX_STORAGE + 1).err(), Some(RingError::TooLarge));
    assert_eq!(RingBuffer::new(MAX_STORAGE / 2 + 1, 2).err(), Some(RingError::TooLarge));
    assert_eq!(MAX_STORAGE, isize::MAX as usize);
    assert!(RingBuffer::new(1, 1).is_ok());
}

#[test]
fn push_that_fits_is_taken_whole() {
    for m in [1usize, 2, 7, 64] {
        for n in 0..=m {
            let mut ring = RingBuffer::new(1, m).unwrap();
            assert_eq!(ring.push(&bytes(n)), n);
            assert_eq!(ring.free(), m - n);
        }
    }
}

#[test]
fn push_that_does_not_fit_is_clipped_to_capacity() {
    for m in [1usize, 2, 7, 64] {
        for n in [m + 1, m + 2, 2 * m, 10 * m + 3] {
            let mut ring = RingBuffer::new(m, 1).unwrap();
            assert_eq!(ring.push(&bytes(n)), m);
            assert_eq!(ring.free(), 0);
        }
    }
}

#[test]
fn push_into_full_buffer_takes_nothing() {
    let mut ring = RingBuffer::new(4, 4).unwrap();
    assert_eq!(ring.push(&bytes(20)), 16);
    assert_eq!(ring.push(&[1]), 0);
    assert_eq!(ring.push(&bytes(16)), 0);
    assert_eq!(ring.push(&[]), 0);
    assert_eq!(ring.free(), 0);
}

#[test]
fn push_copies_the_leading_bytes_in_place() {
    let mut ring = RingBuffer::new(2, 4).unwrap();
    assert_eq!(ring.push(&[1, 2, 3]), 3);
    assert_eq!(ring.write_cursor(), 3);
    assert_eq!(ring.push(&[4, 5, 6, 7, 8, 9, 10]), 5);
    assert_eq!(ring.write_cursor(), 0);
    assert_eq!(ring.storage(), &[1, 2, 3, 4, 5, 6, 7, 8]);
}

#[test]
fn push_wraps_around_the_end_of_the_storage() {
    let mut transfer = Transfer::start(RingBuffer::new(2, 4).unwrap());
    assert_eq!(transfer.push(&[1, 2, 3, 4, 5, 6]), 6);
    assert_eq!(transfer.drained(4), 4);
    assert_eq!(transfer.free(), 6);
    assert_eq!(transfer.push(&[7, 8, 9, 10, 11]), 5);
    assert_eq!(transfer.storage(), &[9, 10, 11, 4, 5, 6, 7, 8]);
    assert_eq!(transfer.free(), 1);
    assert_eq!(transfer.push(&[12, 13]), 1);
    assert_eq!(transfer.storage(), &[9, 10, 11, 12, 5, 6, 7, 8]);
    assert_eq!(transfer.push(&[14]), 0);
}

#[test]
fn drained_never_releases_more_than_is_pending() {
    let mut transfer = Transfer::start(RingBuffer::new(1, 8).unwrap());
    assert_eq!(transfer.drained(3), 0);
    assert_eq!(transfer.push(&[1, 2, 3]), 3);
    assert_eq!(transfer.drained(5), 3);
    assert_eq!(transfer.free(), 8);
    assert_eq!(transfer.drained(1), 0);
}

#[test]
fn cursor_stays_in_range_after_wrapping_twice() {
    let capacity = 12usize;
    let mut ring = RingBuffer::new(3, 4).unwrap();
    assert_eq!(ring.push(&bytes(5)), 5);
    let mut cursor = ring.write_cursor();
    let mut transfer = Transfer::start(ring);
    let mut written = 5usize;
    let mut step = 1usize;
    while written < 3 * capacity {
        transfer.drained(step);
        let taken = transfer.push(&bytes(step + 2));
        cursor = (cursor + taken) % capacity;
        written += taken;
        assert!(transfer.free() <= capacity);
        step = step % 5 + 1;
    }
    assert!(written / capacity >= 2);
    assert!(cursor < capacity);
    let pending = capacity - transfer.free();
    assert_eq!(transfer.drained(capacity), pending);
    assert_eq!(transfer.free(), capacity);
    let fresh = bytes(capacity + 3);
    assert_eq!(transfer.push(&fresh), capacity);
    let storage = transfer.storage();
    for i in 0..capacity {
        assert_eq!(storage[(cursor + i) % capacity], fresh[i]);
    }
    assert_eq!(transfer.push(&[0]), 0);
}

#[test]
fn full_capacity_is_accepted_again_after_each_full_drain() {
    let mut transfer = Transfer::start(RingBuffer::new(5, 3).unwrap());
    for round in 0..7 {
        assert_eq!(transfer.push(&bytes(15 + round)), 15);
        assert_eq!(transfer.push(&bytes(1)), 0);
        assert_eq!(transfer.drained(15), 15);
    }
}

#[test]
fn prefill_fills_the_buffer_with_the_pattern() {
    let mut ring = RingBuffer::new(3, 3).unwrap();
    assert_eq!(ring.prefill(&[0xF8, 0x00]), 9);
    assert_eq!(ring.free(), 0);
    assert_eq!(ring.storage(), &[0xF8, 0x00, 0xF8, 0x00, 0xF8, 0x00, 0xF8, 0x00, 0xF8]);
    assert_eq!(ring.prefill(&[1, 2]), 0);
}

#[test]
fn prefill_of_an_exact_multiple_fills_the_buffer() {
    let mut ring = RingBuffer::new(4, 2).unwrap();
    assert_eq!(ring.prefill(&[0xF8, 0x00]), 8);
    assert_eq!(ring.free(), 0);
    assert_eq!(ring.write_cursor(), 0);
}

#[test]
fn prefill_goes_on_behind_what_is_pending() {
    let mut ring = RingBuffer::new(1, 7).unwrap();
    assert_eq!(ring.push(&[9, 9, 9]), 3);
    assert_eq!(ring.prefill(&[1, 2, 3]), 4);
    assert_eq!(ring.storage(), &[9, 9, 9, 1, 2, 3, 1]);
}

#[test]
fn prefill_with_an_empty_pattern_pushes_nothing() {
    let mut ring = RingBuffer::new(2, 2).unwrap();
    assert_eq!(ring.prefill(&[]), 0);
    assert_eq!(ring.free(), 4);
}

#[test]
fn transfer_keeps_what_was_pending() {
    let mut ring = RingBuffer::new(2, 3).unwrap();
    ring.push(&[1, 2, 3, 4]);
    let mut transfer = Transfer::start(ring);
    assert_eq!(transfer.free(), 2);
    assert_eq!(transfer.drained(6), 4);
    assert_eq!(transfer.free(), 6);
}

#[test]
fn read_descriptor_follows_the_engine() {
    let mut transfer = Transfer::start(RingBuffer::new(4, 3).unwrap());
    assert_eq!(transfer.descriptor_count(), 4);
    assert_eq!(transfer.descriptor_size(), 3);
    assert_eq!(transfer.read_descriptor(), 0);
    assert_eq!(transfer.push(&bytes(12)), 12);
    assert_eq!(transfer.read_descriptor(), 0);
    assert_eq!(transfer.drained(3), 3);
    assert_eq!(transfer.read_descriptor(), 1);
    assert_eq!(transfer.drained(3), 3);
    assert_eq!(transfer.read_descriptor(), 2);
    assert_eq!(transfer.push(&bytes(4)), 4);
    assert_eq!(transfer.read_descriptor(), 2);
    assert_eq!(transfer.drained(6), 6);
    assert_eq!(transfer.read_descriptor(), 0);
    assert_eq!(transfer.drained(4), 4);
    assert_eq!(transfer.read_descriptor(), 1);
    assert_eq!(transfer.free(), 12);
}

#[test]
fn read_descriptor_of_a_buffer_being_filled() {
    let mut ring = RingBuffer::new(3, 4).unwrap();
    assert_eq!(ring.read_descriptor(), 0);
    ring.push(&bytes(9));
    assert_eq!(ring.read_descriptor(), 0);
    assert_eq!(ring.write_cursor(), 9);
    ring.prefill(&[7]);
    assert_eq!(ring.read_descriptor(), 0);
    assert_eq!(ring.write_cursor(), 0);
}

#[test]
fn refill_loop_as_the_engine_hands_descriptors_back() {
    // The engine drains one descriptor at a time; software refills behind it.
    let size = 5usize;
    let count = 4usize;
    let mut transfer = Transfer::start({
        let mut ring = RingBuffer::new(count, size).unwrap();
        ring.prefill(&[0xF8, 0x00]);
        ring
    });
    let line = bytes(7);
    let mut pushed = 0usize;
    for round in 0..20 {
        assert_eq!(transfer.read_descriptor(), round % count);
        assert_eq!(transfer.drained(size), size);
        let mut taken = transfer.push(&line);
        while taken == line.len() {
            pushed += taken;
            taken = transfer.push(&line);
        }
        pushed += taken;
        assert_eq!(transfer.free(), 0);
    }
    assert_eq!(pushed, 20 * size);
}
