//! Control block at the start of a bridge region.
//!
//! Layout: magic at 0, version at 8, flags at 12, region size at 16, creator and connector
//! process at 24 and 32, session token at 40 and 48, heartbeats at 56 and 64, state at 72,
//! channel count at 76; the rest of the 256 bytes is reserved.
use vstd::prelude::*;
use crate::bytes;
use crate::bytes::{get_u32, get_u64, put_u32, put_u64};
use crate::error::SynapseError;

verus! {

/// Magic number: "SYNAPSE\0" as a number.
pub const MAGIC: u64 = 0x53594E4150534500;

/// Current protocol version.
pub const VERSION: u32 = 1;

/// Size of the control block.
pub const CONTROL_SIZE: usize = 256;

/// Where the connector's process ID is in a region.
pub const CONNECTOR_PID_AT: usize = 32;

/// Where the creator's heartbeat is in a region.
pub const CREATOR_HEARTBEAT_AT: usize = 56;

/// Where the connector's heartbeat is in a region.
pub const CONNECTOR_HEARTBEAT_AT: usize = 64;

/// Where the connection state is in a region.
pub const STATE_AT: usize = 72;

/// Connection state machine.
#[derive(Debug, Clone, Copy, PartialEq, Eq, Structural)]
pub enum State {
    /// Region created, waiting for connector.
    Init,
    /// Both sides connected, ready for data.
    Ready,
    /// Graceful shutdown in progress.
    Closing,
    /// Dead: peer lost or fully shut down.
    Dead,
}

impl State {
    /// The number that stands for the state in a region.
    pub open spec fn number(self) -> u32 {
        match self {
            State::Init => 0,
            State::Ready => 1,
            State::Closing => 2,
            State::Dead => 3,
        }
    }

    /// The state that a number stands for.
    pub open spec fn of_number(v: u32) -> Option<State> {
        if v == 0 {
            Some(State::Init)
        } else if v == 1 {
            Some(State::Ready)
        } else if v == 2 {
            Some(State::Closing)
        } else if v == 3 {
            Some(State::Dead)
        } else {
            None
        }
    }

    /// The state that a number stands for.
    pub fn from_u32(v: u32) -> (s: Option<State>)
        ensures
            s == State::of_number(v),
    {
        match v {
            0 => Some(State::Init),
            1 => Some(State::Ready),
            2 => Some(State::Closing),
            3 => Some(State::Dead),
            _ => None,
        }
    }

    /// The number that stands for the state.
    pub fn as_u32(self) -> (v: u32)
        ensures
            v == self.number(),
    {
        match self {
            State::Init => 0,
            State::Ready => 1,
            State::Closing => 2,
            State::Dead => 3,
        }
    }
}

/// What a control block holds.
#[derive(Debug, Clone, Copy, PartialEq, Eq)]
pub struct ControlBlock {
    /// Magic number for identification.
    pub magic: u64,
    /// Protocol version.
    pub version: u32,
    /// Flags (reserved).
    pub flags: u32,
    /// Total region size in bytes.
    pub region_size: u64,
    /// Creator process ID.
    pub creator_pid: u64,
    /// Connector process ID (0 until connected).
    pub connector_pid: u64,
    /// Random session token to prevent cross-attach, low half.
    pub session_token_lo: u64,
    /// High half of the session token.
    pub session_token_hi: u64,
    /// Creator heartbeat counter.
    pub creator_heartbeat: u64,
    /// Connector heartbeat counter.
    pub connector_heartbeat: u64,
    /// Connection state (see `State`).
    pub state: u32,
    /// Number of channels.
    pub channel_count: u32,
}

/// The control block of a region.
pub open spec fn control_at(mem: Seq<u8>) -> ControlBlock {
    ControlBlock {
        magic: bytes::u64_at(mem, 0),
        version: bytes::u32_at(mem, 8),
        flags: bytes::u32_at(mem, 12),
        region_size: bytes::u64_at(mem, 16),
        creator_pid: bytes::u64_at(mem, 24),
        connector_pid: bytes::u64_at(mem, 32),
        session_token_lo: bytes::u64_at(mem, 40),
        session_token_hi: bytes::u64_at(mem, 48),
        creator_heartbeat: bytes::u64_at(mem, 56),
        connector_heartbeat: bytes::u64_at(mem, 64),
        state: bytes::u32_at(mem, 72),
        channel_count: bytes::u32_at(mem, 76),
    }
}

/// `mem` with `cb` as its control block.
pub open spec fn with_control(mem: Seq<u8>, cb: ControlBlock) -> Seq<u8> {
    let m1 = bytes::with_u64(mem, 0, cb.magic);
    let m2 = bytes::with_u32(m1, 8, cb.version);
    let m3 = bytes::with_u32(m2, 12, cb.flags);
    let m4 = bytes::with_u64(m3, 16, cb.region_size);
    let m5 = bytes::with_u64(m4, 24, cb.creator_pid);
    let m6 = bytes::with_u64(m5, 32, cb.connector_pid);
    let m7 = bytes::with_u64(m6, 40, cb.session_token_lo);
    let m8 = bytes::with_u64(m7, 48, cb.session_token_hi);
    let m9 = bytes::with_u64(m8, 56, cb.creator_heartbeat);
    let m10 = bytes::with_u64(m9, 64, cb.connector_heartbeat);
    let m11 = bytes::with_u32(m10, 72, cb.state);
    bytes::with_u32(m11, 76, cb.channel_count)
}

/// The control block of a region that was just created.
pub open spec fn fresh_control(region_size: usize, session_token: u128, pid: u64) -> ControlBlock {
    ControlBlock {
        magic: MAGIC,
        version: VERSION,
        flags: 0,
        region_size: region_size as u64,
        creator_pid: pid,
        connector_pid: 0,
        session_token_lo: (session_token % 0x1_0000_0000_0000_0000) as u64,
        session_token_hi: (session_token / 0x1_0000_0000_0000_0000) as u64,
        creator_heartbeat: 0,
        connector_heartbeat: 0,
        state: State::Init.number(),
        channel_count: 1,
    }
}

impl ControlBlock {
    /// Why the block is not one of this protocol version, if it is not.
    pub open spec fn fault(self) -> Option<SynapseError> {
        if self.magic != MAGIC {
            Some(SynapseError::BadMagic { expected: MAGIC, found: self.magic })
        } else if self.version != VERSION {
            Some(SynapseError::VersionMismatch { expected: VERSION, found: self.version })
        } else {
            None
        }
    }

    /// The session token as one number.
    pub open spec fn token(self) -> int {
        self.session_token_hi * 0x1_0000_0000_0000_0000 + self.session_token_lo
    }

    /// The connection state; a number that stands for none counts as dead.
    pub open spec fn current_state(self) -> State {
        match State::of_number(self.state) {
            Some(s) => s,
            None => State::Dead,
        }
    }

    /// Reads the control block of a region.
    pub fn read(region: &[u8]) -> (cb: ControlBlock)
        requires
            region@.len() >= CONTROL_SIZE,
        ensures
            cb == control_at(region@),
    {
        ControlBlock {
            magic: get_u64(region, 0),
            version: get_u32(region, 8),
            flags: get_u32(region, 12),
            region_size: get_u64(region, 16),
            creator_pid: get_u64(region, 24),
            connector_pid: get_u64(region, 32),
            session_token_lo: get_u64(region, 40),
            session_token_hi: get_u64(region, 48),
            creator_heartbeat: get_u64(region, 56),
            connector_heartbeat: get_u64(region, 64),
            state: get_u32(region, 72),
            channel_count: get_u32(region, 76),
        }
    }

    /// Writes the control block into a region.
    pub fn write(&self, region: &mut [u8])
        requires
            old(region)@.len() >= CONTROL_SIZE,
        ensures
            final(region)@ == with_control(old(region)@, *self),
            control_at(final(region)@) == *self,
            bytes::same_range(old(region)@, final(region)@, 80, old(region)@.len() as int),
    {
        proof {
            lemma_with_control(region@, *self);
        }
        put_u64(region, 0, self.magic);
        put_u32(region, 8, self.version);
        put_u32(region, 12, self.flags);
        put_u64(region, 16, self.region_size);
        put_u64(region, 24, self.creator_pid);
        put_u64(region, 32, self.connector_pid);
        put_u64(region, 40, self.session_token_lo);
        put_u64(region, 48, self.session_token_hi);
        put_u64(region, 56, self.creator_heartbeat);
        put_u64(region, 64, self.connector_heartbeat);
        put_u32(region, 72, self.state);
        put_u32(region, 76, self.channel_count);
    }

    /// Initializes the control block of a region of `region_size` bytes, created by process
    /// `pid`.
    pub fn init(region: &mut [u8], region_size: usize, session_token: u128, pid: u64)
        requires
            old(region)@.len() >= CONTROL_SIZE,
        ensures
            final(region)@ == with_control(
                old(region)@,
                fresh_control(region_size, session_token, pid),
            ),
            control_at(final(region)@) == fresh_control(region_size, session_token, pid),
            bytes::same_range(old(region)@, final(region)@, 80, old(region)@.len() as int),
    {
        let cb: ControlBlock = ControlBlock {
            magic: MAGIC,
            version: VERSION,
            flags: 0,
            region_size: region_size as u64,
            creator_pid: pid,
            connector_pid: 0,
            session_token_lo: (session_token % 0x1_0000_0000_0000_0000) as u64,
            session_token_hi: (session_token / 0x1_0000_0000_0000_0000) as u64,
            creator_heartbeat: 0,
            connector_heartbeat: 0,
            state: State::Init.as_u32(),
            channel_count: 1,
        };
        cb.write(region);
    }

    /// Validates magic and version, and returns the control block.
    pub fn validate(region: &[u8]) -> (r: Result<ControlBlock, SynapseError>)
        requires
            region@.len() >= CONTROL_SIZE,
        ensures
            match r {
                Ok(cb) => control_at(region@).fault() is None && cb == control_at(region@),
                Err(e) => control_at(region@).fault() == Some(e),
            },
    {
        let cb: ControlBlock = ControlBlock::read(region);
        if cb.magic != MAGIC {
            return Err(SynapseError::BadMagic { expected: MAGIC, found: cb.magic });
        }
        if cb.version != VERSION {
            return Err(SynapseError::VersionMismatch { expected: VERSION, found: cb.version });
        }
        Ok(cb)
    }

    /// The session token.
    pub fn session_token(&self) -> (token: u128)
        ensures
            token == self.token(),
    {
        self.session_token_hi as u128 * 0x1_0000_0000_0000_0000 + self.session_token_lo as u128
    }

    /// The current state.
    pub fn state(&self) -> (s: State)
        ensures
            s == self.current_state(),
    {
        match State::from_u32(self.state) {
            Some(s) => s,
            None => State::Dead,
        }
    }

    /// Transitions to a new state.
    pub fn set_state(&mut self, new_state: State)
        ensures
            *final(self) == (ControlBlock { state: new_state.number(), ..*old(self) }),
            final(self).current_state() == new_state,
    {
        self.state = new_state.as_u32();
    }
}

/// Stores a new state in the control block of a region.
pub fn store_state(region: &mut [u8], new_state: State)
    requires
        old(region)@.len() >= CONTROL_SIZE,
    ensures
        final(region)@ == bytes::with_u32(old(region)@, 72, new_state.number()),
{
    put_u32(region, STATE_AT, new_state.as_u32());
}

/// A written control block reads back as it was written, and nothing behind it changes.
pub proof fn lemma_with_control(mem: Seq<u8>, cb: ControlBlock)
    requires
        mem.len() >= CONTROL_SIZE,
    ensures
        with_control(mem, cb).len() == mem.len(),
        control_at(with_control(mem, cb)) == cb,
        bytes::same_range(mem, with_control(mem, cb), 80, mem.len() as int),
{
    let m1 = bytes::with_u64(mem, 0, cb.magic);
    let m2 = bytes::with_u32(m1, 8, cb.version);
    let m3 = bytes::with_u32(m2, 12, cb.flags);
    let m4 = bytes::with_u64(m3, 16, cb.region_size);
    let m5 = bytes::with_u64(m4, 24, cb.creator_pid);
    let m6 = bytes::with_u64(m5, 32, cb.connector_pid);
    let m7 = bytes::with_u64(m6, 40, cb.session_token_lo);
    let m8 = bytes::with_u64(m7, 48, cb.session_token_hi);
    let m9 = bytes::with_u64(m8, 56, cb.creator_heartbeat);
    let m10 = bytes::with_u64(m9, 64, cb.connector_heartbeat);
    let m11 = bytes::with_u32(m10, 72, cb.state);
    let out = bytes::with_u32(m11, 76, cb.channel_count);
    lemma_put64(mem, 0, cb.magic);
    lemma_put32(m1, 8, cb.version);
    lemma_put32(m2, 12, cb.flags);
    lemma_put64(m3, 16, cb.region_size);
    lemma_put64(m4, 24, cb.creator_pid);
    lemma_put64(m5, 32, cb.connector_pid);
    lemma_put64(m6, 40, cb.session_token_lo);
    lemma_put64(m7, 48, cb.session_token_hi);
    lemma_put64(m8, 56, cb.creator_heartbeat);
    lemma_put64(m9, 64, cb.connector_heartbeat);
    lemma_put32(m10, 72, cb.state);
    lemma_put32(m11, 76, cb.channel_count);
    bytes::lemma_same_u64(m1, out, 0, 8, 0);
    bytes::lemma_same_u32(m2, out, 8, 12, 8);
    bytes::lemma_same_u32(m3, out, 12, 16, 12);
    bytes::lemma_same_u64(m4, out, 16, 24, 16);
    bytes::lemma_same_u64(m5, out, 24, 32, 24);
    bytes::lemma_same_u64(m6, out, 32, 40, 32);
    bytes::lemma_same_u64(m7, out, 40, 48, 40);
    bytes::lemma_same_u64(m8, out, 48, 56, 48);
    bytes::lemma_same_u64(m9, out, 56, 64, 56);
    bytes::lemma_same_u64(m10, out, 64, 72, 64);
    bytes::lemma_same_u32(m11, out, 72, 76, 72);
}

/// A 64-bit number reads back as it was written, and the bytes around it stay.
proof fn lemma_put64(mem: Seq<u8>, at: int, v: u64)
    requires
        0 <= at,
        at + 8 <= mem.len(),
    ensures
        ({
            let out = bytes::with_u64(mem, at, v);
            &&& bytes::u64_at(out, at) == v
            &&& bytes::same_range(mem, out, 0, at)
            &&& bytes::same_range(mem, out, at + 8, mem.len() as int)
            &&& out.len() == mem.len()
        }),
{
    bytes::lemma_u64_same(mem, at, v);
    bytes::lemma_le_bytes_len(v as nat, 8);
}

/// A 32-bit number reads back as it was written, and the bytes around it stay.
proof fn lemma_put32(mem: Seq<u8>, at: int, v: u32)
    requires
        0 <= at,
        at + 4 <= mem.len(),
    ensures
        ({
            let out = bytes::with_u32(mem, at, v);
            &&& bytes::u32_at(out, at) == v
            &&& bytes::same_range(mem, out, 0, at)
            &&& bytes::same_range(mem, out, at + 4, mem.len() as int)
            &&& out.len() == mem.len()
        }),
{
    bytes::lemma_u32_same(mem, at, v);
    bytes::lemma_le_bytes_len(v as nat, 4);
}

/// Storing a state changes the control block's state and nothing else.
pub proof fn lemma_store_state(mem: Seq<u8>, s: State)
    requires
        mem.len() >= CONTROL_SIZE,
    ensures
        ({
            let out = bytes::with_u32(mem, 72, s.number());
            &&& out.len() == mem.len()
            &&& control_at(out) == ControlBlock { state: s.number(), ..control_at(mem) }
            &&& bytes::same_range(mem, out, 76, mem.len() as int)
        }),
{
    let out = bytes::with_u32(mem, 72, s.number());
    lemma_put32(mem, 72, s.number());
    lemma_low_fields(mem, out, 72);
    bytes::lemma_same_u32(mem, out, 76, 80, 76);
}

/// Storing the connector's process changes that field and nothing else.
pub proof fn lemma_store_connector(mem: Seq<u8>, pid: u64)
    requires
        mem.len() >= CONTROL_SIZE,
    ensures
        ({
            let out = bytes::with_u64(mem, 32, pid);
            &&& out.len() == mem.len()
            &&& control_at(out) == ControlBlock { connector_pid: pid, ..control_at(mem) }
            &&& bytes::same_range(mem, out, 40, mem.len() as int)
        }),
{
    let out = bytes::with_u64(mem, 32, pid);
    lemma_put64(mem, 32, pid);
    bytes::lemma_same_u64(mem, out, 0, 32, 0);
    bytes::lemma_same_u32(mem, out, 0, 32, 8);
    bytes::lemma_same_u32(mem, out, 0, 32, 12);
    bytes::lemma_same_u64(mem, out, 0, 32, 16);
    bytes::lemma_same_u64(mem, out, 0, 32, 24);
    bytes::lemma_same_u64(mem, out, 40, 80, 40);
    bytes::lemma_same_u64(mem, out, 40, 80, 48);
    bytes::lemma_same_u64(mem, out, 40, 80, 56);
    bytes::lemma_same_u64(mem, out, 40, 80, 64);
    bytes::lemma_same_u32(mem, out, 40, 80, 72);
    bytes::lemma_same_u32(mem, out, 40, 80, 76);
}

/// Storing a heartbeat changes that field and nothing else.
pub proof fn lemma_store_heartbeat(mem: Seq<u8>, creator: bool, beat: u64)
    requires
        mem.len() >= CONTROL_SIZE,
    ensures
        creator ==> control_at(bytes::with_u64(mem, CREATOR_HEARTBEAT_AT as int, beat)) == (
        ControlBlock { creator_heartbeat: beat, ..control_at(mem) }),
        !creator ==> control_at(bytes::with_u64(mem, CONNECTOR_HEARTBEAT_AT as int, beat)) == (
        ControlBlock { connector_heartbeat: beat, ..control_at(mem) }),
{
    let at = if creator {
        56int
    } else {
        64
    };
    let out = bytes::with_u64(mem, at, beat);
    lemma_put64(mem, at, beat);
    bytes::lemma_same_u64(mem, out, 0, at, 0);
    bytes::lemma_same_u32(mem, out, 0, at, 8);
    bytes::lemma_same_u32(mem, out, 0, at, 12);
    bytes::lemma_same_u64(mem, out, 0, at, 16);
    bytes::lemma_same_u64(mem, out, 0, at, 24);
    bytes::lemma_same_u64(mem, out, 0, at, 32);
    bytes::lemma_same_u64(mem, out, 0, at, 40);
    bytes::lemma_same_u64(mem, out, 0, at, 48);
    if creator {
        bytes::lemma_same_u64(mem, out, 64, 80, 64);
    } else {
        bytes::lemma_same_u64(mem, out, 0, at, 56);
    }
    bytes::lemma_same_u32(mem, out, 72, 80, 72);
    bytes::lemma_same_u32(mem, out, 72, 80, 76);
}

/// Regions that agree up to the state hold the same fields before it.
proof fn lemma_low_fields(a: Seq<u8>, b: Seq<u8>, to: int)
    requires
        bytes::same_range(a, b, 0, to),
        to >= 72,
    ensures
        control_at(b) == (ControlBlock {
            state: control_at(b).state,
            channel_count: control_at(b).channel_count,
            ..control_at(a)
        }),
{
    bytes::lemma_same_u64(a, b, 0, to, 0);
    bytes::lemma_same_u32(a, b, 0, to, 8);
    bytes::lemma_same_u32(a, b, 0, to, 12);
    bytes::lemma_same_u64(a, b, 0, to, 16);
    bytes::lemma_same_u64(a, b, 0, to, 24);
    bytes::lemma_same_u64(a, b, 0, to, 32);
    bytes::lemma_same_u64(a, b, 0, to, 40);
    bytes::lemma_same_u64(a, b, 0, to, 48);
    bytes::lemma_same_u64(a, b, 0, to, 56);
    bytes::lemma_same_u64(a, b, 0, to, 64);
}

/// Regions that agree on the control block's bytes hold the same control block.
pub proof fn lemma_same_control(a: Seq<u8>, b: Seq<u8>, to: int)
    requires
        bytes::same_range(a, b, 0, to),
        to >= 80,
    ensures
        control_at(b) == control_at(a),
{
    lemma_low_fields(a, b, to);
    bytes::lemma_same_u32(a, b, 0, to, 72);
    bytes::lemma_same_u32(a, b, 0, to, 76);
}

/// A fresh control block validates and gives its session token back; its state is `Init`; it names
/// its creator and the region's size, one channel, and no connector, and nobody's heart has beaten.
pub proof fn law_fresh_control(region_size: usize, session_token: u128, pid: u64)
    ensures
        fresh_control(region_size, session_token, pid).fault() is None,
        fresh_control(region_size, session_token, pid).token() == session_token,
        fresh_control(region_size, session_token, pid).current_state() == State::Init,
        fresh_control(region_size, session_token, pid).region_size == region_size,
        fresh_control(region_size, session_token, pid).creator_pid == pid,
        fresh_control(region_size, session_token, pid).connector_pid == 0,
        fresh_control(region_size, session_token, pid).creator_heartbeat == 0,
        fresh_control(region_size, session_token, pid).connector_heartbeat == 0,
        fresh_control(region_size, session_token, pid).flags == 0,
        fresh_control(region_size, session_token, pid).channel_count == 1,
{
}

/// The numbers of the states, from zero on, stand for them and for nothing else.
pub proof fn law_state_numbers(s: State, v: u32)
    ensures
        State::Init.number() == 0,
        State::Ready.number() == 1,
        State::Closing.number() == 2,
        State::Dead.number() == 3,
        State::of_number(s.number()) == Some(s),
        State::of_number(v) == Some(s) ==> v == s.number(),
        State::of_number(v) is None <==> v > 3,
{
}

/// A control block is accepted exactly if it starts with the bytes of "SYNAPSE" and a zero, as a
/// number, and is of the first version; a wrong start is told before a wrong version.
pub proof fn law_validation(cb: ControlBlock)
    ensures
        cb.fault() is None <==> cb.magic == 0x53594E4150534500 && cb.version == 1,
        cb.magic != 0x53594E4150534500 ==> cb.fault() == Some(
            SynapseError::BadMagic { expected: 0x53594E4150534500, found: cb.magic },
        ),
        cb.magic == 0x53594E4150534500 && cb.version != 1 ==> cb.fault() == Some(
            SynapseError::VersionMismatch { expected: 1, found: cb.version },
        ),
        cb.token() == cb.session_token_lo + 0x1_0000_0000_0000_0000 * cb.session_token_hi,
{
}

/// The state of a control block is the one that its number stands for, and `Dead` where it stands
/// for none.
pub proof fn law_current_state(cb: ControlBlock)
    ensures
        cb.current_state() == State::Init <==> cb.state == 0,
        cb.current_state() == State::Ready <==> cb.state == 1,
        cb.current_state() == State::Closing <==> cb.state == 2,
        cb.current_state() == State::Dead <==> cb.state >= 3,
{
}

/// Where the fields of the control block are in a region, and that a block that was written is
/// what is read.
pub proof fn law_control_places(mem: Seq<u8>, cb: ControlBlock)
    requires
        mem.len() >= 256,
    ensures
        control_at(mem).magic == bytes::u64_at(mem, 0),
        control_at(mem).version == bytes::u32_at(mem, 8),
        control_at(mem).flags == bytes::u32_at(mem, 12),
        control_at(mem).region_size == bytes::u64_at(mem, 16),
        control_at(mem).creator_pid == bytes::u64_at(mem, 24),
        control_at(mem).connector_pid == bytes::u64_at(mem, 32),
        control_at(mem).session_token_lo == bytes::u64_at(mem, 40),
        control_at(mem).session_token_hi == bytes::u64_at(mem, 48),
        control_at(mem).creator_heartbeat == bytes::u64_at(mem, 56),
        control_at(mem).connector_heartbeat == bytes::u64_at(mem, 64),
        control_at(mem).state == bytes::u32_at(mem, 72),
        control_at(mem).channel_count == bytes::u32_at(mem, 76),
        control_at(with_control(mem, cb)) == cb,
        with_control(mem, cb).len() == mem.len(),
        forall|i: int| 80 <= i < mem.len() ==> #[trigger] with_control(mem, cb)[i] == mem[i],
{
    lemma_with_control(mem, cb);
}

} // verus!
