//! Bridge endpoints: a control block and two rings, one for each direction.
use vstd::prelude::*;
use crate::bytes;
use crate::bytes::put_u64;
use crate::control;
use crate::control::{store_state, ControlBlock, State, CONNECTOR_PID_AT, CONTROL_SIZE};
use crate::error::SynapseError;
use crate::ring;
use crate::ring::{Ring, RingHeader};
use crate::text;
use crate::text::push_hex;

verus! {

/// Default slot size (256 bytes, including the 4-byte length prefix: 252 bytes max payload).
pub const DEFAULT_SLOT_SIZE: u64 = 256;

/// Default ring capacity (1024 slots).
pub const DEFAULT_CAPACITY: u64 = 1024;

/// A bridge endpoint over a region.
#[derive(Debug, Clone, Copy, PartialEq, Eq)]
pub struct Bridge {
    pub is_host: bool,
    pub session_token: u128,
    /// Where the ring from host to connector starts.
    pub ring_ab_offset: usize,
    /// Where the ring from connector to host starts.
    pub ring_ba_offset: usize,
    pub slot_size: u64,
}

/// Bytes that a bridge with rings of this shape takes.
pub open spec fn bridge_bytes(capacity: u64, slot_size: u64) -> int {
    CONTROL_SIZE + 2 * ring::ring_bytes(capacity, slot_size)
}

/// `mem` with a bridge hosted in it.
pub open spec fn hosted(
    mem: Seq<u8>,
    capacity: u64,
    slot_size: u64,
    session_token: u128,
    pid: u64,
) -> Seq<u8> {
    let total = bridge_bytes(capacity, slot_size) as usize;
    let m1 = control::with_control(mem, control::fresh_control(total, session_token, pid));
    let m2 = ring::with_header(m1, CONTROL_SIZE as int, capacity, slot_size);
    let m3 = ring::with_header(
        m2,
        CONTROL_SIZE + ring::ring_bytes(capacity, slot_size),
        capacity,
        slot_size,
    );
    bytes::with_u32(m3, 72, State::Ready.number())
}

impl Bridge {
    /// The ring that this end writes to.
    pub open spec fn out_ring(self) -> Ring {
        if self.is_host {
            Ring { base: self.ring_ab_offset }
        } else {
            Ring { base: self.ring_ba_offset }
        }
    }

    /// The ring that this end reads from.
    pub open spec fn in_ring(self) -> Ring {
        if self.is_host {
            Ring { base: self.ring_ba_offset }
        } else {
            Ring { base: self.ring_ab_offset }
        }
    }

    /// The messages on their way to this end, oldest first.
    pub open spec fn inbox(self, mem: Seq<u8>) -> Seq<Seq<u8>> {
        self.in_ring().messages(mem)
    }

    /// The messages on their way to the other end, oldest first.
    pub open spec fn outbox(self, mem: Seq<u8>) -> Seq<Seq<u8>> {
        self.out_ring().messages(mem)
    }

    /// Whether `mem` holds the bridge that this end belongs to.
    pub open spec fn wf(self, mem: Seq<u8>) -> bool {
        let ab = Ring { base: self.ring_ab_offset };
        let ba = Ring { base: self.ring_ba_offset };
        &&& ab.wf(mem)
        &&& ba.wf(mem)
        &&& CONTROL_SIZE <= ab.base
        &&& ab.end(mem) <= ba.base
        &&& self.slot_size <= usize::MAX
    }

    /// Whether two endpoints are the two ends of one bridge.
    pub open spec fn peers(self, other: Bridge) -> bool {
        &&& self.is_host != other.is_host
        &&& self.ring_ab_offset == other.ring_ab_offset
        &&& self.ring_ba_offset == other.ring_ba_offset
    }

    fn ring_ab(&self) -> (ring: Ring)
        ensures
            ring == (Ring { base: self.ring_ab_offset }),
    {
        Ring::from_ptr(self.ring_ab_offset)
    }

    fn ring_ba(&self) -> (ring: Ring)
        ensures
            ring == (Ring { base: self.ring_ba_offset }),
    {
        Ring::from_ptr(self.ring_ba_offset)
    }

    /// The ring that this end sends by: the host by the one from host to connector, the
    /// connector by the other one.
    pub fn send_ring(&self) -> (ring: Ring)
        ensures
            ring == self.out_ring(),
    {
        if self.is_host {
            self.ring_ab()
        } else {
            self.ring_ba()
        }
    }

    /// The ring that this end receives by.
    pub fn recv_ring(&self) -> (ring: Ring)
        ensures
            ring == self.in_ring(),
    {
        if self.is_host {
            self.ring_ba()
        } else {
            self.ring_ab()
        }
    }

    /// Sends data through the bridge: the host by the ring from host to connector, the
    /// connector by the other one.
    pub fn send(&self, region: &mut [u8], data: &[u8]) -> (r: Result<(), SynapseError>)
        requires
            self.wf(old(region)@),
        ensures
            self.wf(final(region)@),
            self.inbox(final(region)@) == self.inbox(old(region)@),
            control::control_at(final(region)@) == control::control_at(old(region)@),
            match r {
                Ok(_) => {
                    &&& self.out_ring().header(old(region)@).push_fault(data@.len()) is None
                    &&& final(region)@ == self.out_ring().pushed(old(region)@, data@)
                    &&& self.outbox(final(region)@) == self.outbox(old(region)@).push(
                        data@.take((data@.len() % 0x1_0000_0000) as int),
                    )
                },
                Err(e) => {
                    &&& self.out_ring().header(old(region)@).push_fault(data@.len())
                        == Some(e)
                    &&& final(region)@ == old(region)@
                },
            },
            r is Ok <==> {
                &&& data@.len() <= self.out_ring().header(old(region)@).slot_size - 4
                &&& self.outbox(old(region)@).len() < self.out_ring().header(old(region)@).capacity
            },
            r matches Err(e) ==> e == if data@.len() > self.out_ring().header(
                old(region)@,
            ).slot_size - 4 {
                SynapseError::DataTooLarge {
                    data_len: data@.len() as usize,
                    slot_size: (self.out_ring().header(old(region)@).slot_size - 4) as usize,
                }
            } else {
                SynapseError::RingFull
            },
    {
        proof {
            if self.out_ring().header(region@).push_fault(data@.len()) is None {
                lemma_send(*self, region@, data@);
            }
        }
        self.send_ring().try_push(region, data)
    }

    /// Receives data from the bridge, without waiting: the host from the ring from connector to
    /// host, the connector from the other one.
    ///
    /// A message longer than this end's slot size is not received and stays where it is.
    pub fn recv(&self, region: &mut [u8]) -> (out: Option<Vec<u8>>)
        requires
            self.wf(old(region)@),
        ensures
            self.wf(final(region)@),
            self.outbox(final(region)@) == self.outbox(old(region)@),
            control::control_at(final(region)@) == control::control_at(old(region)@),
            out is Some <==> {
                &&& self.inbox(old(region)@).len() > 0
                &&& self.inbox(old(region)@)[0].len() <= self.slot_size
            },
            match out {
                Some(data) => {
                    &&& data@ == self.inbox(old(region)@)[0]
                    &&& self.inbox(final(region)@) == self.inbox(old(region)@).drop_first()
                    &&& final(region)@ == self.in_ring().popped(old(region)@)
                },
                None => final(region)@ == old(region)@,
            },
    {
        proof {
            if self.inbox(region@).len() > 0 {
                lemma_recv(*self, region@);
            }
        }
        let mut buf: Vec<u8> = vec![0u8; self.slot_size as usize];
        match self.recv_ring().try_pop(region, buf.as_mut_slice()) {
            Ok(len) => {
                buf.truncate(len);
                assert(buf@ =~= self.inbox(old(region)@)[0]);
                Some(buf)
            },
            Err(_) => None,
        }
    }

    /// Checks if the bridge is in the `Ready` state.
    pub fn is_ready(&self, region: &[u8]) -> (r: bool)
        requires
            region@.len() >= CONTROL_SIZE,
        ensures
            r == (control::control_at(region@).current_state() == State::Ready),
    {
        ControlBlock::read(region).state() == State::Ready
    }

    /// The session token.
    pub fn session_token(&self) -> (token: u128)
        ensures
            token == self.session_token,
    {
        self.session_token
    }

    /// The session token as 32 hexadecimal digits.
    pub fn session_token_hex(&self) -> (out: String)
        ensures
            out@ == text::hex(self.session_token as nat, 32),
    {
        let mut out: String = String::new();
        push_hex(&mut out, self.session_token, 32);
        assert(out@ =~= text::hex(self.session_token as nat, 32));
        out
    }
}

/// Bytes that a bridge with rings of this shape takes.
pub fn region_size(capacity: u64, slot_size: u64) -> (size: usize)
    requires
        capacity <= usize::MAX,
        slot_size <= usize::MAX,
        bridge_bytes(capacity, slot_size) <= usize::MAX,
    ensures
        size == bridge_bytes(capacity, slot_size),
{
    proof {
        lemma_bridge_bytes(capacity, slot_size);
    }
    let ring_size: usize = RingHeader::region_size(capacity, slot_size);
    CONTROL_SIZE + ring_size * 2
}

/// The session token that sixteen random bytes give.
pub fn session_token_from(random: &[u8; 16]) -> (token: u128)
    ensures
        token == bytes::le_value(random@),
{
    let mut low: u128 = 0;
    let mut i: usize = 16;
    proof {
        reveal_with_fuel(bytes::pow256, 17);
        assert(random@.subrange(16, 16) =~= Seq::<u8>::empty());
    }
    while i > 0
        invariant
            i <= 16,
            low == bytes::le_value(random@.subrange(i as int, 16)),
        decreases i,
    {
        proof {
            let whole = random@.subrange(i - 1, 16);
            assert(whole.drop_first() =~= random@.subrange(i as int, 16));
            bytes::lemma_le_value_bound(whole);
            bytes::lemma_pow256_monotone(whole.len(), 16);
            assert(bytes::pow256(16) == 0x1_0000_0000_0000_0000_0000_0000_0000_0000) by {
                reveal_with_fuel(bytes::pow256, 17);
            }
        }
        i = i - 1;
        low = low * 256 + random[i] as u128;
    }
    assert(random@.subrange(0, 16) =~= random@);
    low
}

/// Creates a new bridge as the host, with rings of the default shape.
pub fn host(region: &mut [u8], session_token: u128, pid: u64) -> (bridge: Bridge)
    requires
        old(region)@.len() == bridge_bytes(DEFAULT_CAPACITY, DEFAULT_SLOT_SIZE),
    ensures
        final(region)@ == hosted(
            old(region)@,
            DEFAULT_CAPACITY,
            DEFAULT_SLOT_SIZE,
            session_token,
            pid,
        ),
        bridge == (Bridge {
            is_host: true,
            session_token,
            ring_ab_offset: CONTROL_SIZE,
            ring_ba_offset: (CONTROL_SIZE + ring::ring_bytes(DEFAULT_CAPACITY, DEFAULT_SLOT_SIZE))
                as usize,
            slot_size: DEFAULT_SLOT_SIZE,
        }),
        bridge.wf(final(region)@),
        bridge.inbox(final(region)@).len() == 0,
        bridge.outbox(final(region)@).len() == 0,
{
    proof {
        reveal_with_fuel(vstd::arithmetic::power2::is_pow2, 12);
        assert(vstd::arithmetic::power2::is_pow2(1024));
        assert(region@.len() == region.len());
    }
    host_with_config(region, DEFAULT_CAPACITY, DEFAULT_SLOT_SIZE, session_token, pid)
}

/// Creates a new bridge as the host, in a region of exactly the size that its rings take.
pub fn host_with_config(
    region: &mut [u8],
    capacity: u64,
    slot_size: u64,
    session_token: u128,
    pid: u64,
) -> (bridge: Bridge)
    requires
        vstd::arithmetic::power2::is_pow2(capacity as int),
        slot_size >= 8,
        old(region)@.len() == bridge_bytes(capacity, slot_size),
    ensures
        final(region)@ == hosted(old(region)@, capacity, slot_size, session_token, pid),
        bridge == (Bridge {
            is_host: true,
            session_token,
            ring_ab_offset: CONTROL_SIZE,
            ring_ba_offset: (CONTROL_SIZE + ring::ring_bytes(capacity, slot_size)) as usize,
            slot_size,
        }),
        bridge.wf(final(region)@),
        bridge.inbox(final(region)@).len() == 0,
        bridge.outbox(final(region)@).len() == 0,
{
    assert(region@.len() == region.len());
    proof {
        lemma_bridge_bytes(capacity, slot_size);
        ring::lemma_shape(capacity, slot_size);
        lemma_hosted(region@, capacity, slot_size, session_token, pid);
    }
    let total_size: usize = region_size(capacity, slot_size);
    let ring_ab_offset: usize = CONTROL_SIZE;
    let ring_ba_offset: usize = CONTROL_SIZE + RingHeader::region_size(capacity, slot_size);
    ControlBlock::init(region, total_size, session_token, pid);
    RingHeader::init(region, ring_ab_offset, capacity, slot_size);
    RingHeader::init(region, ring_ba_offset, capacity, slot_size);
    store_state(region, State::Ready);
    Bridge { is_host: true, session_token, ring_ab_offset, ring_ba_offset, slot_size }
}

/// Connects to an existing bridge with rings of the default shape.
pub fn connect(region: &mut [u8], pid: u64) -> (r: Result<Bridge, SynapseError>)
    requires
        old(region)@.len() >= CONTROL_SIZE,
    ensures
        match r {
            Ok(bridge) => {
                &&& control::control_at(old(region)@).fault() is None
                &&& final(region)@ == bytes::with_u64(old(region)@, 32, pid)
                &&& bridge == connected(old(region)@, DEFAULT_CAPACITY, DEFAULT_SLOT_SIZE)
            },
            Err(e) => {
                &&& control::control_at(old(region)@).fault() == Some(e)
                &&& final(region)@ == old(region)@
            },
        },
{
    assert(usize::MAX >= 0xffff_ffff);
    connect_with_config(region, DEFAULT_CAPACITY, DEFAULT_SLOT_SIZE, pid)
}

/// The connector's end of the bridge in `mem`.
pub open spec fn connected(mem: Seq<u8>, capacity: u64, slot_size: u64) -> Bridge {
    Bridge {
        is_host: false,
        session_token: control::control_at(mem).token() as u128,
        ring_ab_offset: CONTROL_SIZE,
        ring_ba_offset: (CONTROL_SIZE + ring::ring_bytes(capacity, slot_size)) as usize,
        slot_size,
    }
}

/// Connects to an existing bridge: checks the control block, takes over its session token and
/// leaves the process ID `pid` in it.
pub fn connect_with_config(region: &mut [u8], capacity: u64, slot_size: u64, pid: u64) -> (r: Result<
    Bridge,
    SynapseError,
>)
    requires
        old(region)@.len() >= CONTROL_SIZE,
        capacity <= usize::MAX,
        slot_size <= usize::MAX,
        bridge_bytes(capacity, slot_size) <= usize::MAX,
    ensures
        match r {
            Ok(bridge) => {
                &&& control::control_at(old(region)@).fault() is None
                &&& final(region)@ == bytes::with_u64(old(region)@, 32, pid)
                &&& bridge == connected(old(region)@, capacity, slot_size)
            },
            Err(e) => {
                &&& control::control_at(old(region)@).fault() == Some(e)
                &&& final(region)@ == old(region)@
            },
        },
{
    proof {
        lemma_bridge_bytes(capacity, slot_size);
    }
    let session_token: u128 = match ControlBlock::validate(region) {
        Ok(cb) => cb.session_token(),
        Err(e) => {
            return Err(e);
        },
    };
    put_u64(region, CONNECTOR_PID_AT, pid);
    let ring_ab_offset: usize = CONTROL_SIZE;
    let ring_ba_offset: usize = CONTROL_SIZE + RingHeader::region_size(capacity, slot_size);
    Ok(Bridge { is_host: false, session_token, ring_ab_offset, ring_ba_offset, slot_size })
}

proof fn lemma_bridge_bytes(capacity: u64, slot_size: u64)
    ensures
        0 <= capacity * slot_size,
        ring::ring_bytes(capacity, slot_size) <= bridge_bytes(capacity, slot_size) - CONTROL_SIZE
            - ring::RING_HEADER_SIZE,
{
    assert(0 <= capacity * slot_size) by (nonlinear_arith)
        requires
            0 <= capacity,
            0 <= slot_size,
    ;
}

/// A send leaves the other direction and the control block alone.
pub proof fn lemma_send(end: Bridge, mem: Seq<u8>, data: Seq<u8>)
    requires
        end.wf(mem),
        data.len() <= end.out_ring().header(mem).slot_size - 4,
        end.out_ring().header(mem).count() < end.out_ring().header(mem).capacity,
    ensures
        ({
            let out = end.out_ring().pushed(mem, data);
            &&& end.wf(out)
            &&& end.inbox(out) == end.inbox(mem)
            &&& end.outbox(out) == end.outbox(mem).push(
                data.take((data.len() % 0x1_0000_0000) as int),
            )
            &&& control::control_at(out) == control::control_at(mem)
        }),
{
    let out = end.out_ring().pushed(mem, data);
    ring::lemma_push(end.out_ring(), mem, data);
    ring::lemma_same_ring(end.in_ring(), mem, out);
    control::lemma_same_control(mem, out, CONTROL_SIZE as int);
}

/// A receive leaves the other direction and the control block alone.
pub proof fn lemma_recv(end: Bridge, mem: Seq<u8>)
    requires
        end.wf(mem),
        end.inbox(mem).len() > 0,
    ensures
        ({
            let out = end.in_ring().popped(mem);
            &&& end.wf(out)
            &&& end.outbox(out) == end.outbox(mem)
            &&& end.inbox(out) == end.inbox(mem).drop_first()
            &&& control::control_at(out) == control::control_at(mem)
        }),
{
    let out = end.in_ring().popped(mem);
    let h = end.in_ring().header(mem);
    ring::lemma_shape(h.capacity, h.slot_size);
    ring::lemma_pop(end.in_ring(), mem);
    ring::lemma_same_ring(end.out_ring(), mem, out);
    control::lemma_same_control(mem, out, CONTROL_SIZE as int);
}

/// A hosted region holds a ready bridge with two empty rings.
pub proof fn lemma_hosted(
    mem: Seq<u8>,
    capacity: u64,
    slot_size: u64,
    session_token: u128,
    pid: u64,
)
    requires
        vstd::arithmetic::power2::is_pow2(capacity as int),
        slot_size >= 8,
        mem.len() == bridge_bytes(capacity, slot_size),
        mem.len() <= usize::MAX,
    ensures
        ({
            let out = hosted(mem, capacity, slot_size, session_token, pid);
            let end = Bridge {
                is_host: true,
                session_token,
                ring_ab_offset: CONTROL_SIZE,
                ring_ba_offset: (CONTROL_SIZE + ring::ring_bytes(capacity, slot_size)) as usize,
                slot_size,
            };
            &&& end.wf(out)
            &&& end.inbox(out).len() == 0
            &&& end.outbox(out).len() == 0
            &&& end.out_ring().header(out).capacity == capacity
            &&& end.out_ring().header(out).slot_size == slot_size
            &&& end.in_ring().header(out).capacity == capacity
            &&& end.in_ring().header(out).slot_size == slot_size
            &&& control::control_at(out) == ControlBlock {
                state: State::Ready.number(),
                ..control::fresh_control(mem.len() as usize, session_token, pid)
            }
        }),
{
    lemma_bridge_bytes(capacity, slot_size);
    ring::lemma_shape(capacity, slot_size);
    let ring_size = ring::ring_bytes(capacity, slot_size);
    let total = bridge_bytes(capacity, slot_size) as usize;
    let cb = control::fresh_control(total, session_token, pid);
    let m1 = control::with_control(mem, cb);
    let m2 = ring::with_header(m1, CONTROL_SIZE as int, capacity, slot_size);
    let m3 = ring::with_header(m2, CONTROL_SIZE + ring_size, capacity, slot_size);
    let out = bytes::with_u32(m3, 72, State::Ready.number());
    let ab = Ring { base: CONTROL_SIZE };
    let ba = Ring { base: (CONTROL_SIZE + ring_size) as usize };
    control::lemma_with_control(mem, cb);
    ring::lemma_fresh_ring(m1, CONTROL_SIZE as int, capacity, slot_size);
    ring::lemma_fresh_ring(m2, CONTROL_SIZE + ring_size, capacity, slot_size);
    ring::lemma_same_ring(ab, m2, m3);
    control::lemma_same_control(m1, m2, CONTROL_SIZE as int);
    control::lemma_same_control(m2, m3, CONTROL_SIZE as int);
    control::lemma_store_state(m3, State::Ready);
    ring::lemma_same_ring(ab, m3, out);
    ring::lemma_same_ring(ba, m3, out);
}

/// What one end of a bridge sends, the other end has waiting behind what was waiting already;
/// and nothing that travels the other way changes.
pub proof fn law_delivery(end: Bridge, other: Bridge, mem: Seq<u8>, data: Seq<u8>)
    requires
        end.wf(mem),
        other.slot_size <= usize::MAX,
        end.peers(other),
        data.len() <= end.out_ring().header(mem).slot_size - 4,
        data.len() < 0x1_0000_0000,
        end.out_ring().header(mem).count() < end.out_ring().header(mem).capacity,
    ensures
        ({
            let out = end.out_ring().pushed(mem, data);
            &&& other.wf(out)
            &&& other.inbox(out) == other.inbox(mem).push(data)
            &&& other.outbox(out) == other.outbox(mem)
        }),
{
    lemma_send(end, mem, data);
    assert(data.take(data.len() as int) =~= data);
}

/// A connector of a hosted region is accepted, carries the host's session token, finds the
/// bridge ready and both directions empty, with rings of the shape that the host asked for, and
/// is the host's peer.
pub proof fn law_connect_to_host(
    mem: Seq<u8>,
    capacity: u64,
    slot_size: u64,
    session_token: u128,
    pid: u64,
    connector_pid: u64,
    host_end: Bridge,
)
    requires
        vstd::arithmetic::power2::is_pow2(capacity as int),
        slot_size >= 8,
        mem.len() == bridge_bytes(capacity, slot_size),
        mem.len() <= usize::MAX,
        host_end == (Bridge {
            is_host: true,
            session_token,
            ring_ab_offset: CONTROL_SIZE,
            ring_ba_offset: (CONTROL_SIZE + ring::ring_bytes(capacity, slot_size)) as usize,
            slot_size,
        }),
    ensures
        ({
            let shared = hosted(mem, capacity, slot_size, session_token, pid);
            let out = bytes::with_u64(shared, 32, connector_pid);
            let end = connected(shared, capacity, slot_size);
            &&& control::control_at(shared).fault() is None
            &&& control::control_at(out).current_state() == State::Ready
            &&& control::control_at(out).creator_pid == pid
            &&& control::control_at(out).connector_pid == connector_pid
            &&& end.session_token == host_end.session_token
            &&& end.peers(host_end)
            &&& end.wf(out)
            &&& host_end.wf(out)
            &&& end.inbox(out).len() == 0
            &&& end.outbox(out).len() == 0
            &&& end.out_ring().header(out).capacity == capacity
            &&& end.out_ring().header(out).slot_size == slot_size
            &&& end.in_ring().header(out).capacity == capacity
            &&& end.in_ring().header(out).slot_size == slot_size
        }),
{
    lemma_hosted(mem, capacity, slot_size, session_token, pid);
    lemma_bridge_bytes(capacity, slot_size);
    ring::lemma_shape(capacity, slot_size);
    let shared = hosted(mem, capacity, slot_size, session_token, pid);
    let out = bytes::with_u64(shared, 32, connector_pid);
    control::law_fresh_control(mem.len() as usize, session_token, pid);
    control::lemma_store_connector(shared, connector_pid);
    ring::lemma_same_ring(Ring { base: host_end.ring_ab_offset }, shared, out);
    ring::lemma_same_ring(Ring { base: host_end.ring_ba_offset }, shared, out);
}

/// The two ends of a bridge use its two rings the other way round: what one end sends by, the other
/// receives by. The host sends by the first.
pub proof fn law_opposite_rings(end: Bridge, other: Bridge)
    requires
        end.is_host != other.is_host,
        end.ring_ab_offset == other.ring_ab_offset,
        end.ring_ba_offset == other.ring_ba_offset,
    ensures
        end.peers(other),
        end.out_ring() == other.in_ring(),
        end.in_ring() == other.out_ring(),
        end.is_host ==> end.out_ring().base == end.ring_ab_offset && end.in_ring().base
            == end.ring_ba_offset,
        forall|mem: Seq<u8>| #[trigger] end.outbox(mem) == other.inbox(mem),
        forall|mem: Seq<u8>| #[trigger] end.inbox(mem) == other.outbox(mem),
{
}

/// A bridge takes 256 bytes for its control block and, for each of its two rings, 192 bytes and
/// the slots; and the connector finds the rings there, one behind the other.
pub proof fn law_bridge_places(mem: Seq<u8>, capacity: u64, slot_size: u64)
    requires
        256 + 2 * (192 + capacity * slot_size) <= usize::MAX,
    ensures
        bridge_bytes(capacity, slot_size) == 256 + 2 * (192 + capacity * slot_size),
        connected(mem, capacity, slot_size).ring_ab_offset == 256,
        connected(mem, capacity, slot_size).ring_ba_offset == 256 + 192 + capacity * slot_size,
        connected(mem, capacity, slot_size).slot_size == slot_size,
        !connected(mem, capacity, slot_size).is_host,
        DEFAULT_CAPACITY == 1024,
        DEFAULT_SLOT_SIZE == 256,
{
    lemma_bridge_bytes(capacity, slot_size);
}

} // verus!
