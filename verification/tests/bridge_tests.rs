use synapse::bridge::{region_size, session_token_from};
use synapse::bytes::{get_u64, put_u32, put_u64};
use synapse::control::{ControlBlock, State, CONTROL_SIZE, MAGIC, VERSION};
use synapse::error::SynapseError;
use synapse::ring::RingHeader;
use synapse::{
    connect, connect_with_config, host, host_with_config, Bridge, DEFAULT_CAPACITY,
    DEFAULT_SLOT_SIZE,
};

/// Total region size for the default capacity/slot_size config.
fn default_total_size() -> usize {
    let ring_size = RingHeader::region_size(DEFAULT_CAPACITY, DEFAULT_SLOT_SIZE);
    256 + ring_size * 2
}

fn pair(token: u128) -> (Vec<u8>, Bridge, Bridge) {
    let mut region = vec![0u8; default_total_size()];
    let h = host(&mut region, token, 100);
    let c = connect(&mut region, 200).expect("connect failed");
    (region, h, c)
}

#[test]
fn test_host_connect_roundtrip() {
    let (mut region, h, c) = pair(1);

    h.send(&mut region, b"hello from host").unwrap();
    let msg = c.recv(&mut region).expect("no message");
    assert_eq!(msg, b"hello from host");

    c.send(&mut region, b"hello from connector").unwrap();
    let msg = h.recv(&mut region).expect("no message");
    assert_eq!(msg, b"hello from connector");
}

#[test]
fn test_session_token_matches() {
    let token = session_token_from(&[7, 1, 0, 0, 0, 0, 0, 0, 9, 0, 0, 0, 0, 0, 0, 255]);
    let (_region, h, c) = pair(token);
    assert_eq!(h.session_token(), c.session_token());
    assert_ne!(h.session_token(), 0);
}

#[test]
fn test_bidirectional_multiple() {
    let (mut region, h, c) = pair(2);

    for i in 0..100u32 {
        h.send(&mut region, format!("msg_{i}").as_bytes()).unwrap();
    }
    for i in 0..100u32 {
        let data = c.recv(&mut region).unwrap();
        assert_eq!(data, format!("msg_{i}").as_bytes());
    }

    for i in 0..50u32 {
        c.send(&mut region, format!("reply_{i}").as_bytes()).unwrap();
    }
    for i in 0..50u32 {
        let data = h.recv(&mut region).unwrap();
        assert_eq!(data, format!("reply_{i}").as_bytes());
    }
}

#[test]
fn test_control_block_validation() {
    let (region, h, c) = pair(3);
    assert!(c.is_ready(&region));
    assert_eq!(h.session_token(), c.session_token());
}

#[test]
fn test_empty_recv_returns_none() {
    let (mut region, h, c) = pair(4);
    assert!(h.recv(&mut region).is_none());
    assert!(c.recv(&mut region).is_none());
}

#[test]
fn test_high_throughput() {
    let (mut region, h, c) = pair(5);
    for i in 0..1000u32 {
        h.send(&mut region, &i.to_le_bytes()).unwrap();
    }
    for i in 0..1000u32 {
        let data = c.recv(&mut region).unwrap();
        assert_eq!(data, i.to_le_bytes());
    }
}

#[test]
fn test_full_lifecycle_with_bridge() {
    let (mut region, h, c) = pair(6);

    // Verify ready state
    assert!(h.is_ready(&region));
    assert!(c.is_ready(&region));
    assert_eq!(h.session_token(), c.session_token());

    // Send messages in both directions
    for i in 0..50u32 {
        h.send(&mut region, format!("frame_{i}").as_bytes()).unwrap();
    }
    for i in 0..50u32 {
        let data = c.recv(&mut region).unwrap();
        assert_eq!(data, format!("frame_{i}").as_bytes());
    }

    for i in 0..30u32 {
        c.send(&mut region, format!("cmd_{i}").as_bytes()).unwrap();
    }
    for i in 0..30u32 {
        let data = h.recv(&mut region).unwrap();
        assert_eq!(data, format!("cmd_{i}").as_bytes());
    }
}

#[test]
fn test_sustained_throughput_backpressure() {
    let (mut region, h, c) = pair(7);

    let total_messages = 10_000u32;
    let payload = vec![0xABu8; 200]; // 200 bytes per message

    // Push until full, then pop some, then push more: tests backpressure
    let mut sent = 0u32;
    let mut received = 0u32;

    while received < total_messages {
        // Try to send a batch
        while sent < total_messages {
            match h.send(&mut region, &payload) {
                Ok(()) => sent += 1,
                Err(SynapseError::RingFull) => break,
                Err(e) => panic!("send error: {e:?}"),
            }
        }

        // Drain available messages
        while let Some(_data) = c.recv(&mut region) {
            received += 1;
        }
    }

    assert_eq!(received, total_messages);
}

#[test]
fn test_bad_magic() {
    // A zeroed region has magic 0, which is not MAGIC.
    let mut region = vec![0u8; default_total_size()];
    let err = connect(&mut region, 1)
        .err()
        .expect("connect should fail with BadMagic");
    assert!(
        matches!(err, SynapseError::BadMagic { .. }),
        "expected BadMagic, got: {err:?}"
    );
    assert_eq!(err, SynapseError::BadMagic { expected: MAGIC, found: 0 });
    assert!(region.iter().all(|b| *b == 0));
}

#[test]
fn test_version_mismatch() {
    let mut region = vec![0u8; default_total_size()];

    // Write the correct magic then a bumped version number.
    put_u64(&mut region, 0, MAGIC);
    put_u32(&mut region, 8, VERSION + 1);

    let err = connect(&mut region, 1)
        .err()
        .expect("connect should fail with VersionMismatch");
    assert!(
        matches!(err, SynapseError::VersionMismatch { .. }),
        "expected VersionMismatch, got: {err:?}"
    );
    assert_eq!(err, SynapseError::VersionMismatch { expected: 1, found: 2 });
}

#[test]
fn test_data_too_large() {
    // slot_size = 16: max payload = 12 bytes (16 minus the 4-byte length prefix)
    let mut region = vec![0u8; region_size(4, 16)];
    let h = host_with_config(&mut region, 4, 16, 1, 1);
    let big = vec![0u8; 13]; // 13 > 12

    let err = h
        .send(&mut region, &big)
        .expect_err("should fail with DataTooLarge");
    assert!(
        matches!(err, SynapseError::DataTooLarge { .. }),
        "expected DataTooLarge, got: {err:?}"
    );
}

#[test]
fn test_ring_full_bridge() {
    // capacity = 4, slot_size = 32: the ring holds exactly 4 messages
    let mut region = vec![0u8; region_size(4, 32)];
    let h = host_with_config(&mut region, 4, 32, 1, 1);
    let _c = connect_with_config(&mut region, 4, 32, 2).expect("connect failed");

    for _ in 0..4 {
        h.send(&mut region, b"data").expect("should not be full yet");
    }
    let err = h
        .send(&mut region, b"overflow")
        .expect_err("ring should be full");
    assert_eq!(
        err,
        SynapseError::RingFull,
        "expected RingFull, got: {err:?}"
    );
}

#[test]
fn hosted_region_in_bytes() {
    let mut region = vec![0u8; region_size(4, 32)];
    assert_eq!(region.len(), 256 + 2 * (192 + 4 * 32));
    let token = 0x0123_4567_89AB_CDEF_FEDC_BA98_7654_3210u128;
    let h = host_with_config(&mut region, 4, 32, token, 77);
    assert_eq!(&region[0..8], &[0x00, 0x45, 0x53, 0x50, 0x41, 0x4E, 0x59, 0x53]);
    assert_eq!(&region[8..12], &[1, 0, 0, 0]);
    assert_eq!(get_u64(&region, 16), region.len() as u64);
    assert_eq!(get_u64(&region, 24), 77);
    assert_eq!(get_u64(&region, 32), 0);
    assert_eq!(get_u64(&region, 40), 0xFEDC_BA98_7654_3210);
    assert_eq!(get_u64(&region, 48), 0x0123_4567_89AB_CDEF);
    assert_eq!(&region[72..80], &[1, 0, 0, 0, 1, 0, 0, 0]);
    assert_eq!(h.ring_ab_offset, 256);
    assert_eq!(h.ring_ba_offset, 256 + 192 + 128);
    assert_eq!(h.session_token_hex(), "0123456789abcdeffedcba9876543210");
    let c = connect_with_config(&mut region, 4, 32, 99).unwrap();
    assert_eq!(get_u64(&region, 32), 99);
    assert_eq!(c.session_token(), token);
    assert!(!c.is_host);
}

#[test]
fn tokens_from_bytes() {
    assert_eq!(session_token_from(&[0; 16]), 0);
    assert_eq!(session_token_from(&[0xFF; 16]), u128::MAX);
    let bytes = [1, 2, 3, 4, 5, 6, 7, 8, 9, 10, 11, 12, 13, 14, 15, 16];
    assert_eq!(session_token_from(&bytes), u128::from_le_bytes(bytes));
}

#[test]
fn long_message_stays_for_a_small_receiver() {
    let mut region = vec![0u8; region_size(4, 64)];
    let h = host_with_config(&mut region, 4, 64, 1, 1);
    let mut c = connect_with_config(&mut region, 4, 64, 2).unwrap();
    c.slot_size = 4;
    h.send(&mut region, b"12345").unwrap();
    assert!(c.recv(&mut region).is_none());
    c.slot_size = 64;
    assert_eq!(c.recv(&mut region).unwrap(), b"12345");
}

#[test]
fn control_block_reads_and_writes() {
    let mut region = vec![0xAAu8; 300];
    ControlBlock::init(&mut region, 300, 5, 42);
    let mut cb = ControlBlock::validate(&region).unwrap();
    assert_eq!(cb.state(), State::Init);
    assert_eq!(cb.session_token(), 5);
    assert_eq!(cb.channel_count, 1);
    assert_eq!(cb.creator_pid, 42);
    cb.set_state(State::Closing);
    cb.write(&mut region);
    assert_eq!(ControlBlock::read(&region), cb);
    assert_eq!(ControlBlock::read(&region).state(), State::Closing);
    // The reserved bytes and what follows are left alone.
    assert!(region[80..].iter().all(|b| *b == 0xAA));
    put_u32(&mut region, 72, 17);
    assert_eq!(ControlBlock::read(&region).state(), State::Dead);
    assert_eq!(CONTROL_SIZE, 256);
}

#[test]
fn state_numbers() {
    for v in 0..4u32 {
        assert_eq!(State::from_u32(v).unwrap().as_u32(), v);
    }
    assert_eq!(State::from_u32(2), Some(State::Closing));
    assert_eq!(State::from_u32(4), None);
}

#[test]
fn error_messages() {
    assert_eq!(
        SynapseError::ShmError("no".to_string()).to_string(),
        "shared memory error: no"
    );
    assert_eq!(SynapseError::RingFull.to_string(), "ring buffer full");
    assert_eq!(SynapseError::RingEmpty.to_string(), "ring buffer empty");
    assert_eq!(
        SynapseError::DataTooLarge { data_len: 13, slot_size: 120 }.to_string(),
        "data (13 bytes) exceeds slot size (120 bytes)"
    );
    assert_eq!(
        SynapseError::BadMagic { expected: MAGIC, found: 0xABC }.to_string(),
        "bad magic: expected 0x53594e4150534500, found 0x0000000000000abc"
    );
    assert_eq!(
        SynapseError::VersionMismatch { expected: 1, found: 20 }.to_string(),
        "version mismatch: expected 1, found 20"
    );
    assert_eq!(SynapseError::SessionMismatch.to_string(), "session token mismatch");
    assert_eq!(
        SynapseError::InvalidState("x".to_string()).to_string(),
        "invalid state: x"
    );
    assert_eq!(SynapseError::Io("y".to_string()).to_string(), "I/O error: y");
}

#[test]
fn ends_send_and_receive_by_opposite_rings() {
    let mut region = vec![0u8; region_size(2, 16)];
    let h = host_with_config(&mut region, 2, 16, 7, 1);
    let c = connect_with_config(&mut region, 2, 16, 2).unwrap();
    assert_eq!(h.send_ring(), c.recv_ring());
    assert_eq!(c.send_ring(), h.recv_ring());
    assert_eq!(h.send_ring().base, 256);
    assert_eq!(c.send_ring().base, 256 + 192 + 32);
}
