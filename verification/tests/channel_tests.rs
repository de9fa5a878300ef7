use synapse::error::SynapseError;
use synapse::latest_slot::{
    begin_read, retry_read, settle_read, written_sequence, writing_sequence, LatestSlot, ReadStep,
    Settled,
};
use synapse::ring::{Ring, RingHeader};
use synapse::typed_channel::{
    compute_channel_offsets, compute_multi_channel_size, ChannelRegistry, TypedChannel,
    MAX_CHANNELS, REGISTRY_SIZE,
};

#[derive(Debug, Clone, Copy, PartialEq)]
struct Vec3f {
    x: f32,
    y: f32,
    z: f32,
}

impl Vec3f {
    fn bytes(&self) -> Vec<u8> {
        let mut out = Vec::new();
        out.extend_from_slice(&self.x.to_le_bytes());
        out.extend_from_slice(&self.y.to_le_bytes());
        out.extend_from_slice(&self.z.to_le_bytes());
        out
    }

    fn of(b: &[u8]) -> Vec3f {
        Vec3f { x: f32_at(b, 0), y: f32_at(b, 4), z: f32_at(b, 8) }
    }
}

#[derive(Debug, Clone, Copy, PartialEq)]
struct GameState {
    x: f32,
    y: f32,
    z: f32,
    health: f32,
    frame_id: u64,
}

impl GameState {
    fn bytes(&self) -> Vec<u8> {
        let mut out = Vec::new();
        for v in [self.x, self.y, self.z, self.health] {
            out.extend_from_slice(&v.to_le_bytes());
        }
        out.extend_from_slice(&self.frame_id.to_le_bytes());
        out
    }

    fn of(b: &[u8]) -> GameState {
        GameState {
            x: f32_at(b, 0),
            y: f32_at(b, 4),
            z: f32_at(b, 8),
            health: f32_at(b, 12),
            frame_id: u64_at(b, 16),
        }
    }
}

#[derive(Debug, Clone, Copy, PartialEq)]
struct Frame {
    position: Vec3f,
    velocity: Vec3f,
    health: f32,
    frame_id: u64,
}

impl Frame {
    fn bytes(&self) -> Vec<u8> {
        let mut out = self.position.bytes();
        out.extend_from_slice(&self.velocity.bytes());
        out.extend_from_slice(&self.health.to_le_bytes());
        out.extend_from_slice(&[0; 4]);
        out.extend_from_slice(&self.frame_id.to_le_bytes());
        out
    }

    fn of(b: &[u8]) -> Frame {
        Frame {
            position: Vec3f::of(b),
            velocity: Vec3f::of(&b[12..]),
            health: f32_at(b, 24),
            frame_id: u64_at(b, 32),
        }
    }
}

#[derive(Debug, Clone, Copy, PartialEq)]
struct Command {
    tag: u32,
    target_x: f32,
    target_y: f32,
    target_z: f32,
}

impl Command {
    fn bytes(&self) -> Vec<u8> {
        let mut out = self.tag.to_le_bytes().to_vec();
        for v in [self.target_x, self.target_y, self.target_z] {
            out.extend_from_slice(&v.to_le_bytes());
        }
        out
    }

    fn of(b: &[u8]) -> Command {
        Command {
            tag: u32::from_le_bytes([b[0], b[1], b[2], b[3]]),
            target_x: f32_at(b, 4),
            target_y: f32_at(b, 8),
            target_z: f32_at(b, 12),
        }
    }
}

#[derive(Debug, Clone, Copy, PartialEq)]
struct TestData {
    x: f64,
    y: f64,
    z: f64,
    id: u64,
}

impl TestData {
    fn bytes(&self) -> Vec<u8> {
        let mut out = Vec::new();
        for v in [self.x, self.y, self.z] {
            out.extend_from_slice(&v.to_le_bytes());
        }
        out.extend_from_slice(&self.id.to_le_bytes());
        out
    }

    fn of(b: &[u8]) -> TestData {
        TestData {
            x: f64::from_bits(u64_at(b, 0)),
            y: f64::from_bits(u64_at(b, 8)),
            z: f64::from_bits(u64_at(b, 16)),
            id: u64_at(b, 24),
        }
    }
}

fn f32_at(b: &[u8], at: usize) -> f32 {
    f32::from_le_bytes([b[at], b[at + 1], b[at + 2], b[at + 3]])
}

fn u64_at(b: &[u8], at: usize) -> u64 {
    let mut bytes = [0u8; 8];
    bytes.copy_from_slice(&b[at..at + 8]);
    u64::from_le_bytes(bytes)
}

fn slot_size_for<T: Copy>() -> u64 {
    // slot_size = 4-byte length prefix + type size, rounded up to 8-byte alignment
    ((4 + std::mem::size_of::<T>() + 7) & !7) as u64
}

fn alloc_typed_ring<T: Copy>(capacity: u64) -> (Vec<u8>, TypedChannel<T>) {
    let slot_size = slot_size_for::<T>();
    let size = RingHeader::region_size(capacity, slot_size);
    let mut region = vec![0u8; size];
    RingHeader::init(&mut region, 0, capacity, slot_size);
    let ch = TypedChannel::<T>::from_ring_ptr(&region, 0).unwrap();
    (region, ch)
}

fn alloc_slot<T: Copy>() -> (Vec<u8>, LatestSlot<T>) {
    let size = LatestSlot::<T>::required_size();
    let mut mem = vec![0u8; size];
    LatestSlot::<T>::init(&mut mem, 0);
    (mem, LatestSlot::<T>::from_ptr(0))
}

#[test]
fn test_typed_channel_write_read() {
    let (mut mem, ch) = alloc_typed_ring::<Vec3f>(16);

    let v = Vec3f { x: 1.0, y: 2.0, z: 3.0 };
    ch.write(&mut mem, &v.bytes()).unwrap();
    assert_eq!(ch.len(&mem), 1);

    let got = Vec3f::of(&ch.read(&mut mem).unwrap());
    assert_eq!(got, v);
    assert!(ch.is_empty(&mem));
}

#[test]
fn test_typed_channel_multiple_values() {
    let (mut mem, ch) = alloc_typed_ring::<GameState>(8);

    for i in 0..8u32 {
        let state = GameState {
            x: i as f32,
            y: i as f32 * 2.0,
            z: i as f32 * 3.0,
            health: 100.0 - i as f32,
            frame_id: i as u64,
        };
        ch.write(&mut mem, &state.bytes()).unwrap();
    }

    assert_eq!(ch.len(&mem), 8);

    for i in 0..8u32 {
        let state = GameState::of(&ch.read(&mut mem).unwrap());
        assert_eq!(state.frame_id, i as u64);
        assert_eq!(state.health, 100.0 - i as f32);
    }
}

#[test]
fn test_typed_channel_type_too_large() {
    // slot_size of 32 means max payload = 28, way smaller than 512
    let size = RingHeader::region_size(4, 32);
    let mut region = vec![0u8; size];
    RingHeader::init(&mut region, 0, 4, 32);
    let result = TypedChannel::<[u8; 512]>::from_ring_ptr(&region, 0);
    assert!(result.is_err());
    match result.err().unwrap() {
        SynapseError::DataTooLarge { data_len, slot_size } => {
            assert_eq!((data_len, slot_size), (512, 28));
        }
        e => panic!("expected DataTooLarge, got {e:?}"),
    }
}

#[test]
fn test_registry_init_and_register() {
    let mut mem = vec![0u8; REGISTRY_SIZE];
    ChannelRegistry::init(&mut mem, 0);
    let reg = ChannelRegistry::from_ptr(0);

    assert_eq!(reg.count(&mem), 0);

    reg.register(&mut mem, "positions", 1024, 64, 128).unwrap();
    assert_eq!(reg.count(&mem), 1);

    reg.register(&mut mem, "commands", 2048, 32, 64).unwrap();
    assert_eq!(reg.count(&mem), 2);
}

#[test]
fn test_registry_lookup() {
    let mut mem = vec![0u8; REGISTRY_SIZE];
    ChannelRegistry::init(&mut mem, 0);
    let reg = ChannelRegistry::from_ptr(0);

    reg.register(&mut mem, "positions", 1024, 64, 128).unwrap();
    reg.register(&mut mem, "commands", 2048, 32, 64).unwrap();

    let desc = reg.lookup(&mem, "positions").unwrap();
    assert_eq!(desc.name, "positions");
    assert_eq!(desc.offset, 1024);
    assert_eq!(desc.capacity, 64);
    assert_eq!(desc.slot_size, 128);

    let desc = reg.lookup(&mem, "commands").unwrap();
    assert_eq!(desc.name, "commands");
    assert_eq!(desc.offset, 2048);

    assert!(reg.lookup(&mem, "nonexistent").is_none());
}

#[test]
fn test_registry_duplicate_name() {
    let mut mem = vec![0u8; REGISTRY_SIZE];
    ChannelRegistry::init(&mut mem, 0);
    let reg = ChannelRegistry::from_ptr(0);

    reg.register(&mut mem, "test", 1024, 64, 128).unwrap();
    let result = reg.register(&mut mem, "test", 2048, 32, 64);
    assert!(result.is_err());
    assert_eq!(
        result,
        Err(SynapseError::InvalidState("duplicate channel name: test".to_string()))
    );
}

#[test]
fn test_registry_channels_list() {
    let mut mem = vec![0u8; REGISTRY_SIZE];
    ChannelRegistry::init(&mut mem, 0);
    let reg = ChannelRegistry::from_ptr(0);

    reg.register(&mut mem, "alpha", 100, 16, 32).unwrap();
    reg.register(&mut mem, "beta", 200, 32, 64).unwrap();
    reg.register(&mut mem, "gamma", 300, 64, 128).unwrap();

    let channels = reg.channels(&mem);
    assert_eq!(channels.len(), 3);
    assert_eq!(channels[0].name, "alpha");
    assert_eq!(channels[1].name, "beta");
    assert_eq!(channels[2].name, "gamma");
}

#[test]
fn test_compute_multi_channel_size() {
    let channels = vec![(16, 64u64), (32, 128)];
    let size = compute_multi_channel_size(&channels);

    let expected = 256
        + REGISTRY_SIZE
        + RingHeader::region_size(16, 64)
        + RingHeader::region_size(32, 128);
    assert_eq!(size, expected);
}

#[test]
fn test_compute_channel_offsets() {
    let channels = vec![(16, 64u64), (32, 128)];
    let offsets = compute_channel_offsets(&channels);

    assert_eq!(offsets.len(), 2);
    assert_eq!(offsets[0], 256 + REGISTRY_SIZE);
    assert_eq!(
        offsets[1],
        256 + REGISTRY_SIZE + RingHeader::region_size(16, 64)
    );
}

#[test]
fn test_typed_channel_with_registry() {
    // End-to-end: create a region with registry + ring, register channel, look it up, use it
    let capacity = 16u64;
    let slot_size = slot_size_for::<Vec3f>();

    let ring_size = RingHeader::region_size(capacity, slot_size);
    let total_size = REGISTRY_SIZE + ring_size;

    let mut mem = vec![0u8; total_size];

    // Init registry at start
    ChannelRegistry::init(&mut mem, 0);
    let reg = ChannelRegistry::from_ptr(0);

    // Init ring after registry
    let ring_offset = REGISTRY_SIZE;
    RingHeader::init(&mut mem, ring_offset, capacity, slot_size);

    // Register the channel
    reg.register(&mut mem, "positions", ring_offset as u64, capacity, slot_size)
        .unwrap();

    // Look it up
    let desc = reg.lookup(&mem, "positions").unwrap();
    assert_eq!(desc.offset, ring_offset);

    // Create typed channel from the descriptor
    let ch = TypedChannel::<Vec3f>::from_ring_ptr(&mem, desc.offset).unwrap();

    // Write and read
    let v = Vec3f { x: 42.0, y: -1.0, z: 0.5 };
    ch.write(&mut mem, &v.bytes()).unwrap();
    let got = Vec3f::of(&ch.read(&mut mem).unwrap());
    assert_eq!(got, v);
}

#[test]
fn test_write_read_basic() {
    let (mut mem, slot) = alloc_slot::<TestData>();

    // No value yet
    assert!(slot.read(&mem).is_none());
    assert!(!slot.has_value(&mem));

    let data = TestData { x: 1.0, y: 2.0, z: 3.0, id: 42 };
    slot.write(&mut mem, &data.bytes());

    assert!(slot.has_value(&mem));
    let got = TestData::of(&slot.read(&mem).unwrap());
    assert_eq!(got, data);
}

#[test]
fn test_overwrite_gets_latest() {
    let (mut mem, slot) = alloc_slot::<TestData>();

    for i in 0..10u64 {
        let data = TestData { x: i as f64, y: 0.0, z: 0.0, id: i };
        slot.write(&mut mem, &data.bytes());
    }

    let got = TestData::of(&slot.read(&mem).unwrap());
    assert_eq!(got.id, 9);
    assert_eq!(got.x, 9.0);
}

#[test]
fn test_sequence_increments() {
    let (mut mem, slot) = alloc_slot::<u64>();

    assert_eq!(slot.sequence(&mem), 0);

    slot.write(&mut mem, &100u64.to_le_bytes());
    assert_eq!(slot.sequence(&mem), 2);

    slot.write(&mut mem, &200u64.to_le_bytes());
    assert_eq!(slot.sequence(&mem), 4);

    slot.write(&mut mem, &300u64.to_le_bytes());
    assert_eq!(slot.sequence(&mem), 6);
}

#[test]
fn test_primitive_types() {
    // Test with simple u64
    let (mut mem, slot) = alloc_slot::<u64>();
    slot.write(&mut mem, &12345u64.to_le_bytes());
    assert_eq!(u64_at(&slot.read(&mem).unwrap(), 0), 12345u64);

    // Test with f32
    let (mut mem, slot) = alloc_slot::<f32>();
    slot.write(&mut mem, &3.14f32.to_le_bytes());
    assert!((f32_at(&slot.read(&mem).unwrap(), 0) - 3.14f32).abs() < f32::EPSILON);
}

#[test]
fn test_typed_channel_with_latest_slot() {
    // A typed channel for streaming commands
    let (mut ring_mem, cmd_channel) = alloc_typed_ring::<Command>(64);

    // A latest-value slot for game state
    let (mut lvs_mem, state_slot) = alloc_slot::<Frame>();

    // Simulate: game loop writes state, AI reads state and sends commands
    // Use batches that fit within the ring capacity (64)
    let total_frames = 64u64;
    for frame in 0..total_frames {
        let state = Frame {
            position: Vec3f { x: frame as f32, y: 0.0, z: 0.0 },
            velocity: Vec3f { x: 1.0, y: 0.0, z: 0.0 },
            health: 100.0 - frame as f32 * 0.5,
            frame_id: frame,
        };
        state_slot.write(&mut lvs_mem, &state.bytes());

        // AI reads latest state and sends a command
        let latest = Frame::of(&state_slot.read(&lvs_mem).unwrap());
        assert_eq!(latest.frame_id, frame);

        let cmd = Command {
            tag: 1,
            target_x: latest.position.x + 10.0,
            target_y: 0.0,
            target_z: 0.0,
        };
        cmd_channel.write(&mut ring_mem, &cmd.bytes()).unwrap();
    }

    // Drain all commands
    let mut count = 0u64;
    while cmd_channel.read(&mut ring_mem).is_some() {
        count += 1;
    }
    assert_eq!(count, total_frames);
}

#[test]
fn test_registry_multi_channel_pipeline() {
    let capacity = 32u64;

    // Compute sizes
    let gs_slot = slot_size_for::<Frame>();
    let cmd_slot = slot_size_for::<Command>();

    let gs_ring_size = RingHeader::region_size(capacity, gs_slot);
    let cmd_ring_size = RingHeader::region_size(capacity, cmd_slot);

    let total = REGISTRY_SIZE + gs_ring_size + cmd_ring_size;
    let mut mem = vec![0u8; total];

    // Init registry
    ChannelRegistry::init(&mut mem, 0);
    let reg = ChannelRegistry::from_ptr(0);

    // Init rings
    let gs_offset = REGISTRY_SIZE;
    let cmd_offset = REGISTRY_SIZE + gs_ring_size;
    RingHeader::init(&mut mem, gs_offset, capacity, gs_slot);
    RingHeader::init(&mut mem, cmd_offset, capacity, cmd_slot);

    // Register channels
    reg.register(&mut mem, "game_state", gs_offset as u64, capacity, gs_slot)
        .unwrap();
    reg.register(&mut mem, "commands", cmd_offset as u64, capacity, cmd_slot)
        .unwrap();

    // Look up and create typed channels
    let gs_desc = reg.lookup(&mem, "game_state").unwrap();
    let cmd_desc = reg.lookup(&mem, "commands").unwrap();

    let gs_ch = TypedChannel::<Frame>::from_ring_ptr(&mem, gs_desc.offset).unwrap();
    let cmd_ch = TypedChannel::<Command>::from_ring_ptr(&mem, cmd_desc.offset).unwrap();

    // Pipeline: write states, write commands, read both
    for i in 0..capacity as u32 {
        let state = Frame {
            position: Vec3f { x: i as f32, y: 0.0, z: 0.0 },
            velocity: Vec3f { x: 0.0, y: 0.0, z: 0.0 },
            health: 100.0,
            frame_id: i as u64,
        };
        gs_ch.write(&mut mem, &state.bytes()).unwrap();

        let cmd = Command { tag: i % 3, target_x: i as f32, target_y: 0.0, target_z: 0.0 };
        cmd_ch.write(&mut mem, &cmd.bytes()).unwrap();
    }

    // Read and verify order
    for i in 0..capacity as u32 {
        let state = Frame::of(&gs_ch.read(&mut mem).unwrap());
        assert_eq!(state.frame_id, i as u64);

        let cmd = Command::of(&cmd_ch.read(&mut mem).unwrap());
        assert_eq!(cmd.tag, i % 3);
    }

    // Both channels should be empty
    assert!(gs_ch.is_empty(&mem));
    assert!(cmd_ch.is_empty(&mem));

    // Registry should list both channels
    let channels = reg.channels(&mem);
    assert_eq!(channels.len(), 2);
}

#[test]
fn registry_errors_and_limits() {
    let mut mem = vec![0x55u8; REGISTRY_SIZE + 20];
    ChannelRegistry::init(&mut mem, 10);
    let reg = ChannelRegistry::from_ptr(10);
    let long = "x".repeat(48);
    assert_eq!(
        reg.register(&mut mem, &long, 0, 1, 8),
        Err(SynapseError::InvalidState("channel name too long: 48 (max 47)".to_string()))
    );
    let longest = "y".repeat(47);
    assert_eq!(reg.register(&mut mem, &longest, 7, 1, 8), Ok(0));
    assert_eq!(reg.lookup(&mem, &longest).unwrap().offset, 7);
    for i in 1..MAX_CHANNELS {
        assert_eq!(reg.register(&mut mem, &format!("c{i}"), i as u64, 1, 8), Ok(i as u32));
    }
    assert_eq!(
        reg.register(&mut mem, &long, 0, 1, 8),
        Err(SynapseError::InvalidState("channel registry full".to_string()))
    );
    assert_eq!(reg.lookup(&mem, "c63").unwrap().offset, 63);
    // The number is given as it is stored, and no more than 64 channels fit.
    let mut damaged = mem.clone();
    damaged[10] = 200;
    assert_eq!(reg.count(&damaged), 200);
    assert_eq!(
        reg.register(&mut damaged, "more", 0, 1, 8),
        Err(SynapseError::InvalidState("channel registry full".to_string()))
    );
    assert!(mem[..10].iter().all(|b| *b == 0x55));
    assert!(mem[10 + REGISTRY_SIZE..].iter().all(|b| *b == 0x55));
}

#[test]
fn registry_names_are_text() {
    let mut mem = vec![0u8; REGISTRY_SIZE];
    ChannelRegistry::init(&mut mem, 0);
    let reg = ChannelRegistry::from_ptr(0);
    reg.register(&mut mem, "größe", 1, 1, 8).unwrap();
    assert_eq!(reg.lookup(&mem, "größe").unwrap().name, "größe");
    // A name ends at its first null character.
    reg.register(&mut mem, "a\0b", 2, 1, 8).unwrap();
    assert!(reg.lookup(&mem, "a\0b").is_none());
    assert_eq!(reg.lookup(&mem, "a").unwrap().offset, 2);
    // Bytes that are no text count as an empty name.
    mem[8] = 0xFF;
    assert!(reg.lookup(&mem, "größe").is_none());
    assert_eq!(reg.channels(&mem)[0].name, "");
    assert_eq!(reg.lookup(&mem, "").unwrap().offset, 1);
}

#[test]
fn rings_of_channels_are_contiguous() {
    let channels = [(16u64, 64u64), (32, 128), (1, 8), (1024, 256)];
    let offsets = compute_channel_offsets(&channels);
    for i in 0..3 {
        assert_eq!(
            offsets[i] + RingHeader::region_size(channels[i].0, channels[i].1),
            offsets[i + 1]
        );
    }
    assert_eq!(
        offsets[3] + RingHeader::region_size(1024, 256),
        compute_multi_channel_size(&channels)
    );
    assert_eq!(compute_multi_channel_size(&[]), 256 + 4616);
    assert_eq!(compute_channel_offsets(&[]), Vec::<usize>::new());
}

#[test]
fn messages_of_the_wrong_size() {
    let (mut mem, ch) = alloc_typed_ring::<u32>(4);
    let ring = Ring::from_ptr(0);
    // A short message is dropped.
    ring.try_push(&mut mem, &[1, 2]).unwrap();
    ring.try_push(&mut mem, &7u32.to_le_bytes()).unwrap();
    assert!(ch.read(&mut mem).is_none());
    assert_eq!(ch.read(&mut mem).unwrap(), 7u32.to_le_bytes());
    assert!(ch.read(&mut mem).is_none());
    // A long one stays.
    let size = RingHeader::region_size(4, 16);
    let mut mem = vec![0u8; size];
    RingHeader::init(&mut mem, 0, 4, 16);
    let ch = TypedChannel::<u32>::from_ring_ptr(&mem, 0).unwrap();
    ring.try_push(&mut mem, &[1, 2, 3, 4, 5]).unwrap();
    assert!(ch.read(&mut mem).is_none());
    assert_eq!(ch.len(&mem), 1);
}

#[test]
fn slot_in_the_middle_of_a_write() {
    let (mut mem, slot) = alloc_slot::<u64>();
    assert_eq!(&mem[8..16], &8u64.to_le_bytes());
    slot.write(&mut mem, &5u64.to_le_bytes());
    mem[0] = 3;
    assert!(slot.read(&mem).is_none());
    assert!(!slot.has_value(&mem));
    mem[0] = 4;
    assert_eq!(slot.read(&mem).unwrap(), 5u64.to_le_bytes());
    assert_eq!(begin_read(0), ReadStep::Empty);
    assert_eq!(begin_read(5), ReadStep::Retry);
    assert_eq!(begin_read(6), ReadStep::Copy);
    assert_eq!(settle_read(0, 6, 6), Settled::Keep);
    assert_eq!(settle_read(999, 6, 6), Settled::Keep);
    assert_eq!(settle_read(0, 6, 8), Settled::Retry);
    assert_eq!(settle_read(998, 6, 8), Settled::Retry);
    assert_eq!(settle_read(999, 6, 8), Settled::GiveUp);
    assert_eq!(settle_read(usize::MAX, 6, 8), Settled::GiveUp);
    assert_eq!(retry_read(998), Settled::Retry);
    assert_eq!(retry_read(999), Settled::GiveUp);
    assert_eq!(writing_sequence(u64::MAX), 0);
    assert_eq!(written_sequence(u64::MAX), 1);
}

/// A reader that is overtaken by a writer drops its copy.
#[test]
fn overtaken_reader_retries() {
    let (mut mem, slot) = alloc_slot::<u64>();
    slot.write(&mut mem, &0x1111_1111_1111_1111u64.to_le_bytes());
    let before = slot.sequence(&mem);
    assert_eq!(begin_read(before), ReadStep::Copy);
    let mut copy = mem[16..20].to_vec();
    slot.write(&mut mem, &0x2222_2222_2222_2222u64.to_le_bytes());
    copy.extend_from_slice(&mem[20..24]);
    assert_eq!(copy, [0x11, 0x11, 0x11, 0x11, 0x22, 0x22, 0x22, 0x22]);
    assert_eq!(settle_read(0, before, slot.sequence(&mem)), Settled::Retry);
}
