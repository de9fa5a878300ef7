use synapse::bytes::{get_u32, get_u64, put_u64};
use synapse::error::SynapseError;
use synapse::ring::{
    check_pop_len, is_power_of_two, next_counter, shape_fits, Ring, RingHeader, RING_HEADER_SIZE,
};

fn alloc_ring(capacity: u64, slot_size: u64) -> (Vec<u8>, Ring) {
    let size = RingHeader::region_size(capacity, slot_size);
    let mut region = vec![0u8; size];
    RingHeader::init(&mut region, 0, capacity, slot_size);
    (region, Ring::from_ptr(0))
}

#[test]
fn test_ring_push_pop() {
    let (mut mem, ring) = alloc_ring(16, 64);
    assert!(ring.is_empty(&mem));

    ring.try_push(&mut mem, b"hello").unwrap();
    assert_eq!(ring.len(&mem), 1);

    let mut buf = [0u8; 256];
    let len = ring.try_pop(&mut mem, &mut buf).unwrap();
    assert_eq!(&buf[..len], b"hello");
    assert!(ring.is_empty(&mem));
}

#[test]
fn test_ring_full() {
    let (mut mem, ring) = alloc_ring(4, 32);
    for i in 0..4 {
        ring.try_push(&mut mem, &[i as u8; 10]).unwrap();
    }
    assert_eq!(
        ring.try_push(&mut mem, b"overflow"),
        Err(SynapseError::RingFull)
    );
}

#[test]
fn test_ring_wraparound() {
    let (mut mem, ring) = alloc_ring(4, 32);
    let mut buf = [0u8; 256];

    for round in 0..3u8 {
        for i in 0..4u8 {
            ring.try_push(&mut mem, &[round * 10 + i; 8]).unwrap();
        }
        for i in 0..4u8 {
            let len = ring.try_pop(&mut mem, &mut buf).unwrap();
            assert_eq!(len, 8);
            assert_eq!(buf[0], round * 10 + i);
        }
    }
}

#[test]
fn test_slot_ptr_uses_correct_offset() {
    let (mut mem, ring) = alloc_ring(4, 64);

    ring.try_push(&mut mem, b"AAAA").unwrap();
    ring.try_push(&mut mem, b"BBBB").unwrap();
    ring.try_push(&mut mem, b"CCCC").unwrap();

    let mut buf = [0u8; 64];
    let len = ring.try_pop(&mut mem, &mut buf).unwrap();
    assert_eq!(&buf[..len], b"AAAA");
    let len = ring.try_pop(&mut mem, &mut buf).unwrap();
    assert_eq!(&buf[..len], b"BBBB");
    let len = ring.try_pop(&mut mem, &mut buf).unwrap();
    assert_eq!(&buf[..len], b"CCCC");
}

#[test]
fn test_ring_data_too_large() {
    let capacity: u64 = 4;
    let slot_size: u64 = 16;
    let size = RingHeader::region_size(capacity, slot_size);
    let mut region = vec![0u8; size];
    RingHeader::init(&mut region, 0, capacity, slot_size);
    let ring = Ring::from_ptr(0);

    ring.try_push(&mut region, &[0u8; 12]).unwrap();
    assert!(matches!(
        ring.try_push(&mut region, &[0u8; 13]),
        Err(SynapseError::DataTooLarge { .. })
    ));
    assert_eq!(
        ring.try_push(&mut region, &[0u8; 13]),
        Err(SynapseError::DataTooLarge { data_len: 13, slot_size: 12 })
    );
}

#[test]
fn test_ring_full_direct() {
    let capacity: u64 = 4;
    let slot_size: u64 = 16;
    let size = RingHeader::region_size(capacity, slot_size);
    let mut region = vec![0u8; size];
    RingHeader::init(&mut region, 0, capacity, slot_size);
    let ring = Ring::from_ptr(0);

    for _ in 0..capacity {
        ring.try_push(&mut region, b"x")
            .expect("should succeed while capacity remains");
    }
    let err = ring.try_push(&mut region, b"x").expect_err("ring should be full");
    assert_eq!(err, SynapseError::RingFull, "expected RingFull");
}

#[test]
fn ring_layout_in_the_region() {
    let (mut mem, ring) = alloc_ring(4, 32);
    assert_eq!(mem.len(), 192 + 4 * 32);
    assert_eq!(RING_HEADER_SIZE, 192);
    assert_eq!(get_u64(&mem, 128), 4);
    assert_eq!(get_u64(&mem, 136), 32);
    assert_eq!(get_u64(&mem, 144), 3);
    ring.try_push(&mut mem, b"abc").unwrap();
    ring.try_push(&mut mem, b"defg").unwrap();
    assert_eq!(get_u64(&mem, 0), 2);
    assert_eq!(get_u64(&mem, 64), 0);
    assert_eq!(get_u32(&mem, 192 + 32), 4);
    assert_eq!(&mem[192 + 36..192 + 40], b"defg");
    let mut buf = [0u8; 8];
    assert_eq!(ring.try_pop(&mut mem, &mut buf), Ok(3));
    assert_eq!(get_u64(&mem, 64), 1);
}

#[test]
fn empty_ring_and_small_buffer() {
    let (mut mem, ring) = alloc_ring(4, 32);
    let mut buf = [0u8; 2];
    assert_eq!(ring.try_pop(&mut mem, &mut buf), Err(SynapseError::RingEmpty));
    ring.try_push(&mut mem, b"abc").unwrap();
    assert_eq!(
        ring.try_pop(&mut mem, &mut buf),
        Err(SynapseError::DataTooLarge { data_len: 3, slot_size: 2 })
    );
    // The message stays.
    assert_eq!(ring.len(&mem), 1);
    let mut big = [0u8; 8];
    assert_eq!(ring.try_pop(&mut mem, &mut big), Ok(3));
    assert_eq!(&big[..3], b"abc");
}

#[test]
fn too_large_comes_before_full() {
    let (mut mem, ring) = alloc_ring(1, 8);
    assert_eq!(ring.slot_payload_size(&mem), 4);
    ring.try_push(&mut mem, b"1234").unwrap();
    assert_eq!(
        ring.try_push(&mut mem, b"12345"),
        Err(SynapseError::DataTooLarge { data_len: 5, slot_size: 4 })
    );
    assert_eq!(ring.try_push(&mut mem, b"1"), Err(SynapseError::RingFull));
}

#[test]
fn counters_wrap_around() {
    let (mut mem, ring) = alloc_ring(4, 16);
    put_u64(&mut mem, 0, u64::MAX);
    put_u64(&mut mem, 64, u64::MAX);
    assert!(ring.is_empty(&mem));
    ring.try_push(&mut mem, b"a").unwrap();
    ring.try_push(&mut mem, b"b").unwrap();
    ring.try_push(&mut mem, b"c").unwrap();
    assert_eq!(get_u64(&mem, 0), 2);
    assert_eq!(ring.len(&mem), 3);
    let mut buf = [0u8; 16];
    for expected in [b'a', b'b', b'c'] {
        assert_eq!(ring.try_pop(&mut mem, &mut buf), Ok(1));
        assert_eq!(buf[0], expected);
    }
    assert!(ring.is_empty(&mem));
    assert_eq!(next_counter(u64::MAX), 0);
    assert_eq!(next_counter(7), 8);
}

#[test]
fn decisions_on_loaded_headers() {
    let header = RingHeader { head: 6, tail: 3, capacity: 4, slot_size: 32, mask: 3 };
    assert!(header.is_valid());
    assert_eq!(header.len(), 3);
    assert_eq!(header.push_slot(28), Ok(192 + 2 * 32));
    assert_eq!(header.pop_slot(), Ok(192 + 3 * 32));
    let full = RingHeader { head: 7, ..header };
    assert_eq!(full.push_slot(28), Err(SynapseError::RingFull));
    let empty = RingHeader { head: 3, ..header };
    assert_eq!(empty.pop_slot(), Err(SynapseError::RingEmpty));
    assert!(!RingHeader { head: 8, ..header }.is_valid());
    assert!(!RingHeader { mask: 2, ..header }.is_valid());
    assert!(!RingHeader { capacity: 3, mask: 2, ..header }.is_valid());
    assert!(!RingHeader { slot_size: 7, ..header }.is_valid());
    assert_eq!(check_pop_len(3, 3), Ok(()));
    assert_eq!(
        check_pop_len(4, 3),
        Err(SynapseError::DataTooLarge { data_len: 4, slot_size: 3 })
    );
}

#[test]
fn powers_of_two_and_shapes() {
    for n in 0..200u64 {
        assert_eq!(is_power_of_two(n), n.is_power_of_two());
    }
    assert!(is_power_of_two(1 << 63));
    assert!(!is_power_of_two(u64::MAX));
    assert!(shape_fits(1024, 256));
    assert!(!shape_fits(0, 256));
    assert!(!shape_fits(1 << 62, 256));
    assert!(!shape_fits(1024, 7));
}

#[test]
fn rings_in_one_region_do_not_touch_each_other() {
    let size = RingHeader::region_size(4, 32);
    let mut mem = vec![0xEEu8; 2 * size + 10];
    RingHeader::init(&mut mem, 5, 4, 32);
    RingHeader::init(&mut mem, 5 + size, 4, 32);
    let first = Ring::from_ptr(5);
    let second = Ring::from_ptr(5 + size);
    first.try_push(&mut mem, b"one").unwrap();
    second.try_push(&mut mem, b"two").unwrap();
    first.try_push(&mut mem, b"three").unwrap();
    let mut buf = [0u8; 28];
    assert_eq!(second.try_pop(&mut mem, &mut buf), Ok(3));
    assert_eq!(&buf[..3], b"two");
    assert_eq!(first.try_pop(&mut mem, &mut buf), Ok(3));
    assert_eq!(first.try_pop(&mut mem, &mut buf), Ok(5));
    assert_eq!(&buf[..5], b"three");
    assert!(mem[..5].iter().all(|b| *b == 0xEE));
    assert!(mem[5 + 2 * size..].iter().all(|b| *b == 0xEE));
}

/// A producer that works in steps while the consumer pops in between.
#[test]
fn producer_and_consumer_interleave() {
    let (mut mem, ring) = alloc_ring(2, 16);
    let mut buf = [0u8; 16];
    let mut received: Vec<Vec<u8>> = Vec::new();
    for i in 0..20u8 {
        // The producer looks at the counters and fills its slot ...
        let header = RingHeader::read(&mem, 0);
        let at = header.push_slot(1).unwrap();
        mem[at..at + 4].copy_from_slice(&1u32.to_le_bytes());
        if i % 3 == 0 {
            // ... and the consumer pops before it publishes.
            while let Ok(n) = ring.try_pop(&mut mem, &mut buf) {
                received.push(buf[..n].to_vec());
            }
        }
        mem[at + 4] = i;
        put_u64(&mut mem, 0, next_counter(header.head));
        if i % 2 == 1 {
            while let Ok(n) = ring.try_pop(&mut mem, &mut buf) {
                received.push(buf[..n].to_vec());
            }
        }
    }
    while let Ok(n) = ring.try_pop(&mut mem, &mut buf) {
        received.push(buf[..n].to_vec());
    }
    let expected: Vec<Vec<u8>> = (0..20u8).map(|i| vec![i]).collect();
    assert_eq!(received, expected);
}

#[test]
fn plans_do_what_the_ring_does() {
    let (mut mem, ring) = alloc_ring(2, 16);
    let mut by_hand = mem.clone();
    for message in [b"one".as_slice(), b"".as_slice()] {
        let plan = RingHeader::read(&by_hand, 0).plan_push(message).unwrap();
        by_hand[plan.at..plan.at + plan.image.len()].copy_from_slice(&plan.image);
        put_u64(&mut by_hand, 0, plan.head);
        ring.try_push(&mut mem, message).unwrap();
        assert_eq!(by_hand, mem);
    }
    let header = RingHeader::read(&by_hand, 0);
    assert_eq!(header.plan_push(b"x"), Err(SynapseError::RingFull));
    assert_eq!(
        header.plan_push(&[0u8; 13]),
        Err(SynapseError::DataTooLarge { data_len: 13, slot_size: 12 })
    );
    for message in [b"one".as_slice(), b"".as_slice()] {
        let plan = RingHeader::read(&by_hand, 0).plan_pop().unwrap();
        let len = get_u32(&by_hand, plan.at) as usize;
        assert_eq!(&by_hand[plan.at + 4..plan.at + 4 + len], message);
        put_u64(&mut by_hand, 64, plan.tail);
        ring.try_pop(&mut mem, &mut [0u8; 12]).unwrap();
        assert_eq!(by_hand, mem);
    }
    assert_eq!(RingHeader::read(&by_hand, 0).plan_pop(), Err(SynapseError::RingEmpty));
}
