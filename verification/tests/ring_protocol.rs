use spsc_ring::{Empty, Full, RingBuffer, SharedRegion, SyncStrategy, WriteOutcome};

#[test]
fn fifo_order_n_writes_then_n_reads() {
    let mut ring = RingBuffer::new(3, 5, 16, SyncStrategy::BusyWaitAtomic).unwrap();
    let payloads: [&[u8]; 4] = [b"aaa", b"bbb", b"ccc", b"ddd"];
    for p in payloads.iter() {
        assert_eq!(ring.try_write(p), Ok(()));
    }
    let mut out = Vec::new();
    for p in payloads.iter() {
        assert_eq!(ring.try_read(&mut out), Ok(3));
        assert_eq!(out.as_slice(), *p);
    }
    assert!(ring.is_empty());
}

#[test]
fn fifo_order_across_wrap_around() {
    let mut ring = RingBuffer::new(2, 3, 16, SyncStrategy::BusyWaitAtomic).unwrap();
    let mut out = Vec::new();
    for round in 0u8..7 {
        let a = [round, 1];
        let b = [round, 2];
        assert_eq!(ring.try_write(&a), Ok(()));
        assert_eq!(ring.try_write(&b), Ok(()));
        assert_eq!(ring.try_read(&mut out), Ok(2));
        assert_eq!(out.as_slice(), &a);
        assert_eq!(ring.try_read(&mut out), Ok(2));
        assert_eq!(out.as_slice(), &b);
    }
}

#[test]
fn no_overwrite_when_full() {
    let mut ring = RingBuffer::new(2, 3, 16, SyncStrategy::BusyWaitAtomic).unwrap();
    assert_eq!(ring.try_write(b"ab"), Ok(()));
    assert_eq!(ring.try_write(b"cd"), Ok(()));
    assert!(ring.is_full());
    assert_eq!(ring.try_write(b"ef"), Err(Full));
    let mut out = Vec::new();
    assert_eq!(ring.try_read(&mut out), Ok(2));
    assert_eq!(out.as_slice(), b"ab");
    assert_eq!(ring.try_read(&mut out), Ok(2));
    assert_eq!(out.as_slice(), b"cd");
    assert_eq!(ring.try_read(&mut out), Err(Empty));
}

#[test]
fn no_read_before_write() {
    let mut ring = RingBuffer::new(4, 4, 16, SyncStrategy::BusyWaitAtomic).unwrap();
    let mut out = vec![9u8];
    assert_eq!(ring.try_read(&mut out), Err(Empty));
    assert_eq!(out.as_slice(), &[9u8]);
    assert_eq!(ring.try_write(b"wxyz"), Ok(()));
    assert_eq!(ring.try_read(&mut out), Ok(4));
    assert_eq!(out.as_slice(), b"wxyz");
}

#[test]
fn write_step_observes_stop_on_full_ring() {
    let mut ring = RingBuffer::new(2, 2, 16, SyncStrategy::BusyWaitAtomic).unwrap();
    assert_eq!(ring.write_step(b"11"), WriteOutcome::Written);
    assert!(ring.is_full());
    assert_eq!(ring.write_step(b"22"), WriteOutcome::WouldBlock);
    ring.stop();
    assert_eq!(ring.write_step(b"22"), WriteOutcome::Stopped);
    let mut out = Vec::new();
    assert_eq!(ring.try_read(&mut out), Ok(2));
    assert_eq!(out.as_slice(), b"11");
}

#[test]
fn reset_empties_the_ring() {
    let mut ring = RingBuffer::new(2, 3, 16, SyncStrategy::BlockingMutexCondvar).unwrap();
    assert_eq!(ring.try_write(b"ab"), Ok(()));
    ring.stop();
    ring.reset();
    assert!(ring.is_empty());
    assert!(!ring.is_stopped());
    assert_eq!(ring.head(), 0);
    assert_eq!(ring.tail(), 0);
    assert_eq!(ring.strategy(), SyncStrategy::BlockingMutexCondvar);
}

#[test]
fn readable_counts_unread_messages() {
    let mut ring = RingBuffer::new(1, 4, 16, SyncStrategy::BusyWaitAtomic).unwrap();
    assert_eq!(ring.readable(), 0);
    ring.try_write(b"x").unwrap();
    ring.try_write(b"y").unwrap();
    assert_eq!(ring.readable(), 2);
    let mut out = Vec::new();
    ring.try_read(&mut out).unwrap();
    assert_eq!(ring.readable(), 1);
}

#[test]
fn strategy_safety_labels() {
    assert!(SyncStrategy::BusyWaitAtomic.deployment_safe());
    assert!(SyncStrategy::BlockingMutexCondvar.deployment_safe());
    assert!(!SyncStrategy::Unsynchronized.deployment_safe());
}

#[test]
fn region_cursor_store_and_load() {
    let mut region = SharedRegion::create(4, 4, 16).unwrap();
    assert_eq!(region.load_head(), 0);
    assert_eq!(region.load_tail(), 0);
    region.store_head(3);
    region.store_tail(1);
    assert_eq!(region.load_head(), 3);
    assert_eq!(region.load_tail(), 1);
}

#[test]
fn region_slots_are_independent() {
    let mut region = SharedRegion::create(4, 3, 16).unwrap();
    region.write_slot(0, b"abcd");
    region.write_slot(2, b"wxyz");
    assert_eq!(region.read_slot(0), b"abcd".to_vec());
    assert_eq!(region.read_slot(2), b"wxyz".to_vec());
    region.write_slot(1, b"1234");
    assert_eq!(region.read_slot(0), b"abcd".to_vec());
    assert_eq!(region.read_slot(2), b"wxyz".to_vec());
}

#[test]
fn region_creation_fails_on_overflow() {
    assert!(SharedRegion::create(usize::MAX, 2, 16).is_err());
    assert!(SharedRegion::create_paged(16, usize::MAX, 16).is_err());
}

#[test]
fn mapping_descriptor_and_teardown() {
    let mut region = SharedRegion::create(8, 4, 32).unwrap();
    let desc = region.map_into().unwrap();
    assert_eq!(desc.header_bytes, 32);
    assert_eq!(desc.slot_stride, 8);
    assert_eq!(desc.slot_size, 8);
    assert_eq!(desc.slot_count, 4);
    assert_eq!(desc.region_len, 32 + 8 * 4);
    region.teardown();
    assert!(region.map_into().is_err());
}

#[test]
fn paged_region_addresses_like_contiguous() {
    let mut region = SharedRegion::create_paged(4, 2, 16).unwrap();
    let desc = region.map_into().unwrap();
    assert_eq!(desc.header_bytes, 16);
    assert_eq!(desc.slot_stride, 16);
    assert_eq!(desc.region_len, 48);
    region.write_slot(1, b"pppp");
    assert_eq!(region.read_slot(1), b"pppp".to_vec());
    let mut ring = RingBuffer::from_region(region, SyncStrategy::BusyWaitAtomic);
    assert_eq!(ring.try_write(b"q1q1"), Ok(()));
    let mut out = Vec::new();
    assert_eq!(ring.try_read(&mut out), Ok(4));
    assert_eq!(out.as_slice(), b"q1q1");
}

#[test]
fn balance_meter_tracks_which_side_is_faster() {
    let mut ring = RingBuffer::new(1, 2, 16, SyncStrategy::BlockingMutexCondvar).unwrap();
    let mut meter = spsc_ring::BalanceMeter::new();
    meter.note_empty(ring.is_empty());
    assert_eq!(meter.value(), -1);
    ring.try_write(b"x").unwrap();
    meter.note_full(ring.is_full());
    assert_eq!(meter.value(), 0);
    meter.note_full(ring.is_full());
    assert_eq!(meter.value(), 1);
    meter.note_empty(ring.is_empty());
    assert_eq!(meter.value(), 1);
}
