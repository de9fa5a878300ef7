//! Single-producer single-consumer ring of length-prefixed messages inside a region.
//!
//! Layout, from the ring's base: the head counter at 0 and the tail counter at 64, each on a
//! cache line of its own; capacity, slot size and mask from 128 on; the slots from 192 on. A
//! slot holds a 32-bit length and then the message. Both counters run freely and wrap around;
//! a counter's slot is found by masking it with `capacity - 1`.
use vstd::prelude::*;
use crate::bytes;
use crate::bytes::{copy_in, copy_out, get_u32, get_u64, put_u32, put_u64};
use crate::error::SynapseError;

verus! {

/// Cache line size (64 bytes on x86_64 / ARM).
const CACHELINE: usize = 64;

/// Size of the ring header: three cache lines.
pub const RING_HEADER_SIZE: usize = 192;

/// Number of values that a counter runs through before it wraps around.
pub open spec fn counter_span() -> int {
    0x1_0000_0000_0000_0000
}

/// What a ring's header holds.
#[derive(Debug, Clone, Copy, PartialEq, Eq)]
pub struct RingHeader {
    /// Write position (owned by the producer).
    pub head: u64,
    /// Read position (owned by the consumer).
    pub tail: u64,
    /// Number of slots (a power of two).
    pub capacity: u64,
    /// Size of each slot in bytes (includes the 4-byte length prefix).
    pub slot_size: u64,
    /// Bitmask: capacity - 1.
    pub mask: u64,
}

/// The header of the ring at `base`.
pub open spec fn header_at(mem: Seq<u8>, base: int) -> RingHeader {
    RingHeader {
        head: bytes::u64_at(mem, base),
        tail: bytes::u64_at(mem, base + 64),
        capacity: bytes::u64_at(mem, base + 128),
        slot_size: bytes::u64_at(mem, base + 136),
        mask: bytes::u64_at(mem, base + 144),
    }
}

/// `mem` with a fresh ring header at `base`.
pub open spec fn with_header(mem: Seq<u8>, base: int, capacity: u64, slot_size: u64) -> Seq<u8> {
    let m1 = bytes::with_u64(mem, base, 0);
    let m2 = bytes::with_u64(m1, base + 64, 0);
    let m3 = bytes::with_u64(m2, base + 128, capacity);
    let m4 = bytes::with_u64(m3, base + 136, slot_size);
    bytes::with_u64(m4, base + 144, (capacity - 1) as u64)
}

/// Bytes that a ring of this shape takes, header included.
pub open spec fn ring_bytes(capacity: u64, slot_size: u64) -> int {
    RING_HEADER_SIZE + capacity * slot_size
}

/// Whether a ring of this shape can exist.
pub open spec fn shape_ok(capacity: u64, slot_size: u64) -> bool {
    &&& vstd::arithmetic::power2::is_pow2(capacity as int)
    &&& slot_size >= 8
    &&& ring_bytes(capacity, slot_size) <= usize::MAX
}

impl RingHeader {
    /// Number of messages waiting.
    pub open spec fn count(self) -> nat {
        ((self.head - self.tail) % counter_span()) as nat
    }

    /// Whether the header describes a ring.
    pub open spec fn wf(self) -> bool {
        &&& shape_ok(self.capacity, self.slot_size)
        &&& self.mask == self.capacity - 1
        &&& self.count() <= self.capacity
    }

    /// Where the slot of a counter value starts, from the ring's base.
    pub open spec fn slot_offset(self, counter: int) -> int {
        RING_HEADER_SIZE + (counter % (self.capacity as int)) * self.slot_size
    }

    /// Why a message of `len` bytes cannot be pushed, if it cannot.
    pub open spec fn push_fault(self, len: nat) -> Option<SynapseError> {
        if len > self.slot_size - 4 {
            Some(
                SynapseError::DataTooLarge {
                    data_len: len as usize,
                    slot_size: (self.slot_size - 4) as usize,
                },
            )
        } else if self.count() >= self.capacity {
            Some(SynapseError::RingFull)
        } else {
            None
        }
    }

    /// Reads the header of the ring at `base`.
    pub fn read(region: &[u8], base: usize) -> (h: RingHeader)
        requires
            base + RING_HEADER_SIZE <= region@.len(),
        ensures
            h == header_at(region@, base as int),
    {
        assert(base + RING_HEADER_SIZE <= region.len());
        RingHeader {
            head: get_u64(region, base),
            tail: get_u64(region, base + CACHELINE),
            capacity: get_u64(region, base + 2 * CACHELINE),
            slot_size: get_u64(region, base + 2 * CACHELINE + 8),
            mask: get_u64(region, base + 2 * CACHELINE + 16),
        }
    }

    /// Initializes a ring header at `base`: an empty ring of `capacity` slots.
    pub fn init(region: &mut [u8], base: usize, capacity: u64, slot_size: u64)
        requires
            shape_ok(capacity, slot_size),
            base + ring_bytes(capacity, slot_size) <= old(region)@.len(),
        ensures
            final(region)@ == with_header(old(region)@, base as int, capacity, slot_size),
            (Ring { base }).wf(final(region)@),
            (Ring { base }).messages(final(region)@) == Seq::<Seq<u8>>::empty(),
            header_at(final(region)@, base as int) == (RingHeader {
                head: 0,
                tail: 0,
                capacity,
                slot_size,
                mask: (capacity - 1) as u64,
            }),
    {
        proof {
            lemma_shape(capacity, slot_size);
            lemma_fresh_ring(region@, base as int, capacity, slot_size);
        }
        assert(base + RING_HEADER_SIZE <= region.len());
        put_u64(region, base, 0);
        put_u64(region, base + CACHELINE, 0);
        put_u64(region, base + 2 * CACHELINE, capacity);
        put_u64(region, base + 2 * CACHELINE + 8, slot_size);
        put_u64(region, base + 2 * CACHELINE + 16, capacity - 1);
    }

    /// Total bytes needed for a ring (header + all slots).
    pub fn region_size(capacity: u64, slot_size: u64) -> (size: usize)
        requires
            capacity <= usize::MAX,
            slot_size <= usize::MAX,
            ring_bytes(capacity, slot_size) <= usize::MAX,
        ensures
            size == ring_bytes(capacity, slot_size),
    {
        assert(0 <= capacity * slot_size) by (nonlinear_arith)
            requires
                0 <= capacity,
                0 <= slot_size,
        ;
        RING_HEADER_SIZE + (capacity as usize) * (slot_size as usize)
    }

    /// Whether the header describes a ring.
    pub fn is_valid(&self) -> (r: bool)
        ensures
            r == self.wf(),
    {
        if !shape_fits(self.capacity, self.slot_size) {
            return false;
        }
        proof {
            lemma_shape(self.capacity, self.slot_size);
        }
        self.mask == self.capacity - 1 && self.len() <= self.capacity
    }

    /// Number of messages between the two counters.
    pub fn len(&self) -> (n: u64)
        ensures
            n == self.count(),
    {
        self.head.wrapping_sub(self.tail)
    }

    /// Decides whether `len` bytes can be pushed, and where the slot for them starts, from the
    /// ring's base.
    pub fn push_slot(&self, len: usize) -> (r: Result<usize, SynapseError>)
        requires
            self.wf(),
        ensures
            match r {
                Ok(at) => self.push_fault(len as nat) is None && at == self.slot_offset(self.head as int),
                Err(e) => self.push_fault(len as nat) == Some(e),
            },
            r is Ok <==> len <= self.slot_size - 4 && self.count() < self.capacity,
            r matches Err(e) ==> e == if len > self.slot_size - 4 {
                SynapseError::DataTooLarge {
                    data_len: len,
                    slot_size: (self.slot_size - 4) as usize,
                }
            } else {
                SynapseError::RingFull
            },
    {
        proof {
            lemma_shape(self.capacity, self.slot_size);
            lemma_slot_bounds(*self, self.head as int);
            lemma_mask(self.head, self.capacity);
        }
        let max_payload: usize = self.slot_size as usize - 4;
        if len > max_payload {
            return Err(SynapseError::DataTooLarge { data_len: len, slot_size: max_payload });
        }
        if self.head.wrapping_sub(self.tail) >= self.capacity {
            return Err(SynapseError::RingFull);
        }
        Ok(RING_HEADER_SIZE + ((self.head & self.mask) * self.slot_size) as usize)
    }

    /// Decides whether a message is waiting, and where its slot starts, from the ring's base.
    pub fn pop_slot(&self) -> (r: Result<usize, SynapseError>)
        requires
            self.wf(),
        ensures
            match r {
                Ok(at) => self.head != self.tail && at == self.slot_offset(self.tail as int),
                Err(e) => self.head == self.tail && e == SynapseError::RingEmpty,
            },
    {
        proof {
            lemma_shape(self.capacity, self.slot_size);
            lemma_slot_bounds(*self, self.tail as int);
            lemma_mask(self.tail, self.capacity);
        }
        if self.head == self.tail {
            return Err(SynapseError::RingEmpty);
        }
        Ok(RING_HEADER_SIZE + ((self.tail & self.mask) * self.slot_size) as usize)
    }
}

/// What a push writes, in this order: `image` at `at`, from the ring's base, and then `head` to
/// the head counter, which publishes the message.
#[derive(Debug, Clone, PartialEq, Eq)]
pub struct PushPlan {
    pub at: usize,
    pub image: Vec<u8>,
    pub head: u64,
}

/// What a pop does, in this order: it reads the slot at `at`, from the ring's base, and then writes
/// `tail` to the tail counter, which gives the slot back.
#[derive(Debug, Clone, Copy, PartialEq, Eq)]
pub struct PopPlan {
    pub at: usize,
    pub tail: u64,
}

/// The bytes of a slot that holds `data`: the length's low 32 bits, and the data.
pub open spec fn slot_image(data: Seq<u8>) -> Seq<u8> {
    bytes::le_bytes(data.len() % 0x1_0000_0000, 4) + data
}

impl RingHeader {
    /// Decides whether `data` can be pushed, and what a push of it writes.
    pub fn plan_push(&self, data: &[u8]) -> (r: Result<PushPlan, SynapseError>)
        requires
            self.wf(),
        ensures
            match r {
                Ok(plan) => {
                    &&& self.push_fault(data@.len()) is None
                    &&& plan.at == self.slot_offset(self.head as int)
                    &&& plan.image@ == slot_image(data@)
                    &&& plan.head == (self.head + 1) % counter_span()
                },
                Err(e) => self.push_fault(data@.len()) == Some(e),
            },
            r is Ok <==> data@.len() <= self.slot_size - 4 && self.count() < self.capacity,
            r matches Err(e) ==> e == if data@.len() > self.slot_size - 4 {
                SynapseError::DataTooLarge {
                    data_len: data@.len() as usize,
                    slot_size: (self.slot_size - 4) as usize,
                }
            } else {
                SynapseError::RingFull
            },
    {
        let at: usize = match self.push_slot(data.len()) {
            Ok(at) => at,
            Err(e) => {
                return Err(e);
            },
        };
        let mut image: Vec<u8> = vec![0u8; 4];
        let len: u32 = (data.len() as u64 % 0x1_0000_0000) as u32;
        put_u32(image.as_mut_slice(), 0, len);
        proof {
            bytes::lemma_le_bytes_len(len as nat, 4);
            assert(image@ =~= bytes::le_bytes(len as nat, 4));
        }
        image.extend_from_slice(data);
        assert(image@ =~= slot_image(data@));
        Ok(PushPlan { at, image, head: next_counter(self.head) })
    }

    /// Decides whether a message is waiting, and where a pop finds it.
    pub fn plan_pop(&self) -> (r: Result<PopPlan, SynapseError>)
        requires
            self.wf(),
        ensures
            match r {
                Ok(plan) => {
                    &&& self.head != self.tail
                    &&& plan.at == self.slot_offset(self.tail as int)
                    &&& plan.tail == (self.tail + 1) % counter_span()
                },
                Err(e) => self.head == self.tail && e == SynapseError::RingEmpty,
            },
    {
        let at: usize = match self.pop_slot() {
            Ok(at) => at,
            Err(e) => {
                return Err(e);
            },
        };
        Ok(PopPlan { at, tail: next_counter(self.tail) })
    }
}

/// Whether a number is a power of two.
pub fn is_power_of_two(n: u64) -> (r: bool)
    ensures
        r == vstd::arithmetic::power2::is_pow2(n as int),
{
    let mut rest: u64 = n;
    proof {
        reveal(vstd::arithmetic::power2::is_pow2);
    }
    while rest > 1 && rest % 2 == 0
        invariant
            vstd::arithmetic::power2::is_pow2(rest as int)
                == vstd::arithmetic::power2::is_pow2(n as int),
        decreases rest,
    {
        proof {
            reveal(vstd::arithmetic::power2::is_pow2);
        }
        rest = rest / 2;
    }
    proof {
        reveal(vstd::arithmetic::power2::is_pow2);
    }
    rest == 1
}

/// Whether a ring of this shape can exist.
pub fn shape_fits(capacity: u64, slot_size: u64) -> (r: bool)
    ensures
        r == shape_ok(capacity, slot_size),
{
    if !is_power_of_two(capacity) || slot_size < 8 {
        return false;
    }
    assert(0 <= capacity * slot_size) by (nonlinear_arith)
        requires
            0 <= capacity,
            0 <= slot_size,
    ;
    match capacity.checked_mul(slot_size) {
        Some(slots) => slots <= (usize::MAX - RING_HEADER_SIZE) as u64,
        None => false,
    }
}

/// Decides whether a message of `len` bytes fits the reader's buffer.
pub fn check_pop_len(len: usize, buf_len: usize) -> (r: Result<(), SynapseError>)
    ensures
        match r {
            Ok(_) => len <= buf_len,
            Err(e) => len > buf_len && e == (SynapseError::DataTooLarge {
                data_len: len,
                slot_size: buf_len,
            }),
        },
{
    if len > buf_len {
        return Err(SynapseError::DataTooLarge { data_len: len, slot_size: buf_len });
    }
    Ok(())
}

/// The counter value after one more message.
pub fn next_counter(counter: u64) -> (next: u64)
    ensures
        next == (counter + 1) % counter_span(),
{
    counter.wrapping_add(1)
}

/// A ring at a place in a region.
///
/// Any number of `Ring` values may stand for the same ring; what it holds is in the region.
#[derive(Debug, Clone, Copy, PartialEq, Eq)]
pub struct Ring {
    /// Where the ring starts in the region.
    pub base: usize,
}

impl Ring {
    /// The header in `mem`.
    pub open spec fn header(self, mem: Seq<u8>) -> RingHeader {
        header_at(mem, self.base as int)
    }

    /// Where the slot of a counter value starts in `mem`.
    pub open spec fn slot(self, mem: Seq<u8>, counter: int) -> int {
        self.base + self.header(mem).slot_offset(counter)
    }

    /// The length prefix in the slot of a counter value.
    pub open spec fn message_len(self, mem: Seq<u8>, counter: int) -> u32 {
        bytes::u32_at(mem, self.slot(mem, counter))
    }

    /// The message in the slot of a counter value.
    pub open spec fn message(self, mem: Seq<u8>, counter: int) -> Seq<u8> {
        mem.subrange(
            self.slot(mem, counter) + 4,
            self.slot(mem, counter) + 4 + self.message_len(mem, counter),
        )
    }

    /// The messages waiting, oldest first.
    pub open spec fn messages(self, mem: Seq<u8>) -> Seq<Seq<u8>> {
        Seq::new(
            self.header(mem).count(),
            |i: int| self.message(mem, self.header(mem).tail + i),
        )
    }

    /// Where the ring ends in `mem`.
    pub open spec fn end(self, mem: Seq<u8>) -> int {
        self.base + ring_bytes(self.header(mem).capacity, self.header(mem).slot_size)
    }

    /// Whether `mem` holds a ring at this place.
    pub open spec fn wf(self, mem: Seq<u8>) -> bool {
        &&& self.base + RING_HEADER_SIZE <= mem.len()
        &&& self.header(mem).wf()
        &&& self.end(mem) <= mem.len()
        &&& forall|i: int|
            0 <= i < self.header(mem).count() ==> #[trigger] self.message_len(
                mem,
                self.header(mem).tail + i,
            ) <= self.header(mem).slot_size - 4
    }

    /// `mem` after `data` was pushed.
    pub open spec fn pushed(self, mem: Seq<u8>, data: Seq<u8>) -> Seq<u8> {
        let h = self.header(mem);
        let slot = self.slot(mem, h.head as int);
        let m1 = bytes::with_u32(mem, slot, (data.len() % 0x1_0000_0000) as u32);
        let m2 = bytes::splice(m1, slot + 4, data);
        bytes::with_u64(m2, self.base as int, ((h.head + 1) % counter_span()) as u64)
    }

    /// `mem` after the oldest message was taken.
    pub open spec fn popped(self, mem: Seq<u8>) -> Seq<u8> {
        bytes::with_u64(
            mem,
            self.base + 64,
            ((self.header(mem).tail + 1) % counter_span()) as u64,
        )
    }

    /// A view of the ring at `base`.
    pub fn from_ptr(base: usize) -> (ring: Ring)
        ensures
            ring.base == base,
    {
        Ring { base }
    }

    fn slot_size(&self, region: &[u8]) -> (size: u64)
        requires
            self.wf(region@),
        ensures
            size == self.header(region@).slot_size,
    {
        assert(self.base + RING_HEADER_SIZE <= region.len());
        get_u64(region, self.base + 2 * CACHELINE + 8)
    }

    /// Tries to push `data` into the ring (producer side).
    ///
    /// The length prefix has 32 bits: of a message of 4 GiB or more, only as many bytes as the
    /// low 32 bits of its length count as the message.
    pub fn try_push(&self, region: &mut [u8], data: &[u8]) -> (r: Result<(), SynapseError>)
        requires
            self.wf(old(region)@),
        ensures
            self.wf(final(region)@),
            match r {
                Ok(_) => {
                    &&& self.header(old(region)@).push_fault(data@.len()) is None
                    &&& final(region)@ == self.pushed(old(region)@, data@)
                    &&& self.messages(final(region)@) == self.messages(old(region)@).push(
                        data@.take((data@.len() % 0x1_0000_0000) as int),
                    )
                },
                Err(e) => {
                    &&& self.header(old(region)@).push_fault(data@.len()) == Some(e)
                    &&& final(region)@ == old(region)@
                },
            },
            r is Ok <==> {
                &&& data@.len() <= self.header(old(region)@).slot_size - 4
                &&& self.messages(old(region)@).len() < self.header(old(region)@).capacity
            },
            r matches Err(e) ==> e == if data@.len() > self.header(old(region)@).slot_size - 4 {
                SynapseError::DataTooLarge {
                    data_len: data@.len() as usize,
                    slot_size: (self.header(old(region)@).slot_size - 4) as usize,
                }
            } else {
                SynapseError::RingFull
            },
    {
        let header: RingHeader = RingHeader::read(region, self.base);
        let at: usize = match header.push_slot(data.len()) {
            Ok(at) => at,
            Err(e) => {
                return Err(e);
            },
        };
        let ghost before = region@;
        proof {
            lemma_push(*self, before, data@);
            lemma_slot_bounds(header, header.head as int);
        }
        assert(self.base + at + 4 + data.len() <= region.len());
        put_u32(region, self.base + at, (data.len() as u64 % 0x1_0000_0000) as u32);
        assert(self.base + at + 4 + data.len() <= region.len());
        copy_in(region, self.base + at + 4, data);
        put_u64(region, self.base, next_counter(header.head));
        Ok(())
    }

    /// Tries to pop the oldest message into the start of `buf` (consumer side), and returns its
    /// length.
    pub fn try_pop(&self, region: &mut [u8], buf: &mut [u8]) -> (r: Result<usize, SynapseError>)
        requires
            self.wf(old(region)@),
        ensures
            self.wf(final(region)@),
            self.messages(old(region)@).len() == 0 <==> r == Err::<usize, SynapseError>(
                SynapseError::RingEmpty,
            ),
            match r {
                Ok(n) => {
                    let message = self.messages(old(region)@)[0];
                    &&& n == message.len()
                    &&& n <= old(buf)@.len()
                    &&& final(buf)@ == bytes::splice(old(buf)@, 0, message)
                    &&& final(region)@ == self.popped(old(region)@)
                    &&& self.messages(final(region)@) == self.messages(old(region)@).drop_first()
                },
                Err(e) => {
                    &&& final(buf)@ == old(buf)@
                    &&& final(region)@ == old(region)@
                    &&& self.messages(old(region)@).len() > 0 ==> {
                        let message = self.messages(old(region)@)[0];
                        &&& message.len() > old(buf)@.len()
                        &&& e == (SynapseError::DataTooLarge {
                            data_len: message.len() as usize,
                            slot_size: old(buf)@.len() as usize,
                        })
                    }
                },
            },
    {
        let header: RingHeader = RingHeader::read(region, self.base);
        proof {
            lemma_count_zero(header);
        }
        let at: usize = match header.pop_slot() {
            Ok(at) => at,
            Err(e) => {
                return Err(e);
            },
        };
        let ghost before = region@;
        proof {
            lemma_slot_bounds(header, header.tail as int);
            assert(self.message_len(before, header.tail + 0) <= header.slot_size - 4);
            lemma_pop(*self, before);
        }
        assert(self.base + at + 4 <= region.len());
        let len: usize = get_u32(region, self.base + at) as usize;
        assert(self.messages(before)[0] == self.message(before, header.tail + 0));
        match check_pop_len(len, buf.len()) {
            Ok(_) => {},
            Err(e) => {
                return Err(e);
            },
        }
        copy_out(region, self.base + at + 4, buf, len);
        put_u64(region, self.base + CACHELINE, next_counter(header.tail));
        Ok(len)
    }

    /// Number of messages currently in the ring.
    pub fn len(&self, region: &[u8]) -> (n: u64)
        requires
            self.base + RING_HEADER_SIZE <= region@.len(),
        ensures
            n == self.messages(region@).len(),
    {
        RingHeader::read(region, self.base).len()
    }

    /// Whether no message is waiting.
    pub fn is_empty(&self, region: &[u8]) -> (r: bool)
        requires
            self.base + RING_HEADER_SIZE <= region@.len(),
        ensures
            r == (self.messages(region@).len() == 0),
    {
        self.len(region) == 0
    }

    /// Maximum payload size per slot (slot size minus the 4-byte length prefix).
    pub fn slot_payload_size(&self, region: &[u8]) -> (n: usize)
        requires
            self.wf(region@),
        ensures
            n == self.header(region@).slot_size - 4,
    {
        proof {
            lemma_shape(self.header(region@).capacity, self.header(region@).slot_size);
        }
        self.slot_size(region) as usize - 4
    }
}

/// What the shape of a ring bounds.
pub proof fn lemma_shape(capacity: u64, slot_size: u64)
    requires
        shape_ok(capacity, slot_size),
    ensures
        1 <= capacity <= usize::MAX,
        slot_size <= usize::MAX,
        capacity * slot_size <= usize::MAX - RING_HEADER_SIZE,
{
    let _ = lemma_exponent(capacity);
    assert(slot_size <= capacity * slot_size) by (nonlinear_arith)
        requires
            1 <= capacity,
            0 <= slot_size,
    ;
    assert(capacity <= capacity * slot_size) by (nonlinear_arith)
        requires
            0 <= capacity,
            1 <= slot_size,
    ;
}

/// A slot lies behind the header and before the ring's end, and its offset can be computed in
/// 64 bits.
pub proof fn lemma_slot_bounds(h: RingHeader, counter: int)
    requires
        shape_ok(h.capacity, h.slot_size),
    ensures
        0 <= counter % (h.capacity as int) < h.capacity,
        0 <= (counter % (h.capacity as int)) * h.slot_size,
        RING_HEADER_SIZE <= h.slot_offset(counter),
        h.slot_offset(counter) + h.slot_size <= ring_bytes(h.capacity, h.slot_size),
{
    lemma_shape(h.capacity, h.slot_size);
    let i = counter % (h.capacity as int);
    let c = h.capacity as int;
    let s = h.slot_size as int;
    assert(0 <= i < c);
    assert(0 <= i * s && i * s + s <= c * s) by (nonlinear_arith)
        requires
            0 <= i < c,
            0 <= s,
    ;
}

/// Masking with a power of two less one is the remainder.
pub proof fn lemma_mask(x: u64, capacity: u64)
    requires
        vstd::arithmetic::power2::is_pow2(capacity as int),
    ensures
        capacity >= 1,
        x & ((capacity - 1) as u64) == x % capacity,
{
    let k = lemma_exponent(capacity);
    vstd::bits::lemma_u64_low_bits_mask_is_mod(x, k);
}

/// The exponent of a capacity.
proof fn lemma_exponent(capacity: u64) -> (k: nat)
    requires
        vstd::arithmetic::power2::is_pow2(capacity as int),
    ensures
        k < 64,
        capacity == vstd::arithmetic::power2::pow2(k),
        capacity >= 1,
{
    vstd::arithmetic::power2::is_pow2_equiv(capacity as int);
    let k = choose|k: nat| vstd::arithmetic::power::pow(2, k) == capacity as int;
    vstd::arithmetic::power2::lemma_pow2(k);
    vstd::arithmetic::power2::lemma2_to64();
    vstd::arithmetic::power2::lemma2_to64_rest();
    if k >= 64 {
        if k > 64 {
            vstd::arithmetic::power2::lemma_pow2_strictly_increases(64, k);
        }
    }
    vstd::arithmetic::power2::lemma_pow2_pos(k);
    k
}

/// Wrapping a counter around does not change its slot.
pub proof fn lemma_wrap(x: int, capacity: u64)
    requires
        vstd::arithmetic::power2::is_pow2(capacity as int),
    ensures
        capacity >= 1,
        (x % counter_span()) % (capacity as int) == x % (capacity as int),
{
    let k = lemma_exponent(capacity);
    vstd::arithmetic::power2::lemma2_to64_rest();
    let m = vstd::arithmetic::power2::pow2((64 - k) as nat) as int;
    vstd::arithmetic::power2::lemma_pow2_adds(k, (64 - k) as nat);
    vstd::arithmetic::power2::lemma_pow2_pos((64 - k) as nat);
    assert(counter_span() == capacity as int * m);
    vstd::arithmetic::div_mod::lemma_mod_mod(x, capacity as int, m);
}

/// Counters less than a capacity apart have different slots.
proof fn lemma_distinct(a: int, b: int, capacity: int)
    requires
        0 < capacity,
        a < b < a + capacity,
    ensures
        a % capacity != b % capacity,
{
    if a % capacity == b % capacity {
        vstd::arithmetic::div_mod::lemma_fundamental_div_mod(a, capacity);
        vstd::arithmetic::div_mod::lemma_fundamental_div_mod(b, capacity);
        let d = b / capacity - a / capacity;
        assert(b - a == capacity * d) by (nonlinear_arith)
            requires
                a == capacity * (a / capacity) + a % capacity,
                b == capacity * (b / capacity) + b % capacity,
                a % capacity == b % capacity,
                d == b / capacity - a / capacity,
        ;
        assert(false) by (nonlinear_arith)
            requires
                0 < b - a < capacity,
                b - a == capacity * d,
                0 < capacity,
        ;
    }
}

/// Slots of counters less than a capacity apart do not overlap.
pub proof fn lemma_disjoint(h: RingHeader, a: int, b: int)
    requires
        shape_ok(h.capacity, h.slot_size),
        a < b < a + h.capacity,
    ensures
        h.slot_offset(a) + h.slot_size <= h.slot_offset(b) || h.slot_offset(b) + h.slot_size
            <= h.slot_offset(a),
{
    lemma_shape(h.capacity, h.slot_size);
    lemma_distinct(a, b, h.capacity as int);
    let x = a % (h.capacity as int);
    let y = b % (h.capacity as int);
    let s = h.slot_size as int;
    if x < y {
        assert(x * s + s <= y * s) by (nonlinear_arith)
            requires
                x < y,
                0 <= s,
        ;
    } else {
        assert(y * s + s <= x * s) by (nonlinear_arith)
            requires
                y < x,
                0 <= s,
        ;
    }
}

/// The counters are equal exactly when nothing is waiting.
pub proof fn lemma_count_zero(h: RingHeader)
    ensures
        h.count() == 0 <==> h.head == h.tail,
        (h.tail + h.count()) % counter_span() == h.head,
{
}

/// The counters after one more message went in or came out.
proof fn lemma_count_step(h: RingHeader)
    ensures
        (h.count() < counter_span() - 1) ==> (((h.head + 1) % counter_span() - h.tail)
            % counter_span()) == h.count() + 1,
        h.count() > 0 ==> ((h.head - (h.tail + 1) % counter_span()) % counter_span()) == h.count()
            - 1,
{
}

/// Regions that agree on a ring's bytes hold the same ring.
pub proof fn lemma_same_ring(ring: Ring, a: Seq<u8>, b: Seq<u8>)
    requires
        ring.wf(a),
        bytes::same_range(a, b, ring.base as int, ring.end(a)),
    ensures
        ring.wf(b),
        ring.header(b) == ring.header(a),
        ring.messages(b) == ring.messages(a),
{
    let from = ring.base as int;
    let to = ring.end(a);
    let h = ring.header(a);
    lemma_shape(h.capacity, h.slot_size);
    bytes::lemma_same_u64(a, b, from, to, from);
    bytes::lemma_same_u64(a, b, from, to, from + 64);
    bytes::lemma_same_u64(a, b, from, to, from + 128);
    bytes::lemma_same_u64(a, b, from, to, from + 136);
    bytes::lemma_same_u64(a, b, from, to, from + 144);
    assert(ring.header(b) == h);
    assert forall|i: int| 0 <= i < h.count() implies {
        &&& #[trigger] ring.message_len(b, h.tail + i) == ring.message_len(a, h.tail + i)
        &&& ring.message(b, h.tail + i) == ring.message(a, h.tail + i)
    } by {
        lemma_slot_bounds(h, h.tail + i);
        bytes::lemma_same_u32(a, b, from, to, ring.slot(a, h.tail + i));
        assert(ring.message_len(a, h.tail + i) <= h.slot_size - 4);
        assert(ring.message(b, h.tail + i) =~= ring.message(a, h.tail + i));
    }
    assert(ring.messages(b) =~= ring.messages(a));
}

/// Writing a fresh header makes an empty ring.
pub proof fn lemma_fresh_ring(mem: Seq<u8>, base: int, capacity: u64, slot_size: u64)
    requires
        0 <= base <= usize::MAX,
        shape_ok(capacity, slot_size),
        base + ring_bytes(capacity, slot_size) <= mem.len(),
    ensures
        ({
            let out = with_header(mem, base, capacity, slot_size);
            let ring = Ring { base: base as usize };
            &&& header_at(out, base) == RingHeader {
                head: 0,
                tail: 0,
                capacity,
                slot_size,
                mask: (capacity - 1) as u64,
            }
            &&& ring.wf(out)
            &&& ring.messages(out) == Seq::<Seq<u8>>::empty()
            &&& out.len() == mem.len()
            &&& forall|i: int| 0 <= i < mem.len() && (i < base || base + 152 <= i) ==> out[i]
                == mem[i]
        }),
{
    lemma_shape(capacity, slot_size);
    bytes::lemma_le_bytes_len(0, 8);
    bytes::lemma_le_bytes_len(capacity as nat, 8);
    bytes::lemma_le_bytes_len(slot_size as nat, 8);
    bytes::lemma_le_bytes_len((capacity - 1) as nat, 8);
    let m1 = bytes::with_u64(mem, base, 0);
    let m2 = bytes::with_u64(m1, base + 64, 0);
    let m3 = bytes::with_u64(m2, base + 128, capacity);
    let m4 = bytes::with_u64(m3, base + 136, slot_size);
    let m5 = bytes::with_u64(m4, base + 144, (capacity - 1) as u64);
    bytes::lemma_u64_same(mem, base, 0);
    bytes::lemma_u64_same(m1, base + 64, 0);
    bytes::lemma_u64_same(m2, base + 128, capacity);
    bytes::lemma_u64_same(m3, base + 136, slot_size);
    bytes::lemma_u64_same(m4, base + 144, (capacity - 1) as u64);
    bytes::lemma_same_u64(m1, m5, base, base + 8, base);
    bytes::lemma_same_u64(m2, m5, base + 64, base + 72, base + 64);
    bytes::lemma_same_u64(m3, m5, base + 128, base + 136, base + 128);
    bytes::lemma_same_u64(m4, m5, base + 136, base + 144, base + 136);
    let ring = Ring { base: base as usize };
    assert(ring.messages(m5) =~= Seq::<Seq<u8>>::empty());
}

/// A push leaves the ring well formed, adds its message behind the others, and changes nothing
/// outside the ring.
pub proof fn lemma_push(ring: Ring, mem: Seq<u8>, data: Seq<u8>)
    requires
        ring.wf(mem),
        data.len() <= ring.header(mem).slot_size - 4,
        ring.header(mem).count() < ring.header(mem).capacity,
    ensures
        ({
            let out = ring.pushed(mem, data);
            let h = ring.header(mem);
            &&& out.len() == mem.len()
            &&& ring.header(out) == RingHeader {
                head: ((h.head + 1) % counter_span()) as u64,
                ..h
            }
            &&& ring.wf(out)
            &&& ring.messages(out) == ring.messages(mem).push(
                data.take((data.len() % 0x1_0000_0000) as int),
            )
            &&& bytes::same_range(mem, out, 0, ring.base as int)
            &&& bytes::same_range(mem, out, ring.end(mem), mem.len() as int)
        }),
{
    let h = ring.header(mem);
    let base = ring.base as int;
    let n = (data.len() % 0x1_0000_0000) as u32;
    let slot = ring.slot(mem, h.head as int);
    let next = ((h.head + 1) % counter_span()) as u64;
    let m1 = bytes::with_u32(mem, slot, n);
    let m2 = bytes::splice(m1, slot + 4, data);
    let out = bytes::with_u64(m2, base, next);
    lemma_shape(h.capacity, h.slot_size);
    lemma_slot_bounds(h, h.head as int);
    lemma_count_zero(h);
    lemma_count_step(h);
    bytes::lemma_le_bytes_len(n as nat, 4);
    bytes::lemma_le_bytes_len(next as nat, 8);
    bytes::lemma_u32_same(mem, slot, n);
    bytes::lemma_u64_same(m2, base, next);
    bytes::lemma_same_u32(m1, out, slot, slot + 4, slot);
    bytes::lemma_same_u64(mem, out, base + 64, base + 192, base + 64);
    bytes::lemma_same_u64(mem, out, base + 64, base + 192, base + 128);
    bytes::lemma_same_u64(mem, out, base + 64, base + 192, base + 136);
    bytes::lemma_same_u64(mem, out, base + 64, base + 192, base + 144);
    let h2 = ring.header(out);
    assert(h2 == RingHeader { head: next, ..h });
    let count = h.count() as int;
    assert(h2.count() == count + 1);
    // The new message sits in the slot of the old head.
    lemma_wrap(h.tail + count, h.capacity);
    assert(ring.slot(out, h.tail + count) == slot);
    let stored = data.take(n as int);
    assert(out.subrange(slot + 4, slot + 4 + n) =~= stored);
    assert(ring.message_len(out, h.tail + count) == n);
    assert(ring.message(out, h.tail + count) == stored);
    // The others stay where they are.
    assert forall|i: int| 0 <= i < count implies {
        &&& #[trigger] ring.message_len(out, h.tail + i) == ring.message_len(mem, h.tail + i)
        &&& ring.message(out, h.tail + i) == ring.message(mem, h.tail + i)
    } by {
        lemma_slot_bounds(h, h.tail + i);
        lemma_disjoint(h, h.tail + i, h.tail + count);
        let at = ring.slot(mem, h.tail + i);
        assert(ring.slot(out, h.tail + i) == at);
        assert(bytes::same_range(mem, out, at, at + h.slot_size));
        bytes::lemma_same_u32(mem, out, at, at + h.slot_size, at);
        assert(ring.message_len(mem, h.tail + i) <= h.slot_size - 4);
        assert(ring.message(out, h.tail + i) =~= ring.message(mem, h.tail + i));
    }
    assert(ring.messages(out) =~= ring.messages(mem).push(stored));
}

/// A pop leaves the ring well formed, takes the oldest message, and changes nothing but the
/// tail counter.
pub proof fn lemma_pop(ring: Ring, mem: Seq<u8>)
    requires
        ring.wf(mem),
        ring.header(mem).count() > 0,
    ensures
        ({
            let out = ring.popped(mem);
            let h = ring.header(mem);
            &&& out.len() == mem.len()
            &&& ring.header(out) == RingHeader {
                tail: ((h.tail + 1) % counter_span()) as u64,
                ..h
            }
            &&& ring.wf(out)
            &&& ring.messages(out) == ring.messages(mem).drop_first()
            &&& bytes::same_range(mem, out, 0, ring.base + 64)
            &&& bytes::same_range(mem, out, ring.base + 72, mem.len() as int)
        }),
{
    let h = ring.header(mem);
    let base = ring.base as int;
    let next = ((h.tail + 1) % counter_span()) as u64;
    let out = bytes::with_u64(mem, base + 64, next);
    lemma_shape(h.capacity, h.slot_size);
    lemma_count_step(h);
    bytes::lemma_le_bytes_len(next as nat, 8);
    bytes::lemma_u64_same(mem, base + 64, next);
    bytes::lemma_same_u64(mem, out, base, base + 64, base);
    bytes::lemma_same_u64(mem, out, base + 72, base + 192, base + 128);
    bytes::lemma_same_u64(mem, out, base + 72, base + 192, base + 136);
    bytes::lemma_same_u64(mem, out, base + 72, base + 192, base + 144);
    let h2 = ring.header(out);
    assert(h2 == RingHeader { tail: next, ..h });
    assert(h2.count() == h.count() - 1);
    assert forall|i: int| 0 <= i < h.count() - 1 implies {
        &&& #[trigger] ring.message_len(out, next + i) == ring.message_len(mem, h.tail + (i + 1))
        &&& ring.message_len(out, next + i) <= h.slot_size - 4
        &&& ring.message(out, next + i) == ring.message(mem, h.tail + (i + 1))
    } by {
        lemma_wrap(h.tail + 1, h.capacity);
        lemma_same_slot(next as int, h.tail + 1, i, h.capacity as int);
        lemma_slot_bounds(h, h.tail + (i + 1));
        let at = ring.slot(mem, h.tail + (i + 1));
        assert(ring.slot(out, next + i) == at);
        bytes::lemma_same_u32(mem, out, at, at + h.slot_size, at);
        assert(ring.message_len(mem, h.tail + (i + 1)) <= h.slot_size - 4);
        assert(ring.message(out, next + i) =~= ring.message(mem, h.tail + (i + 1)));
    }
    assert(ring.messages(out) =~= ring.messages(mem).drop_first());
}

/// Counters with the same slot keep it when both advance by as much.
pub proof fn lemma_same_slot(a: int, b: int, i: int, capacity: int)
    requires
        0 < capacity,
        a % capacity == b % capacity,
    ensures
        (a + i) % capacity == (b + i) % capacity,
{
    vstd::arithmetic::div_mod::lemma_add_mod_noop(a, i, capacity);
    vstd::arithmetic::div_mod::lemma_add_mod_noop(b, i, capacity);
}

/// What is pushed into a ring with room for it comes out of it again, first in first out: after
/// the messages that were waiting, unchanged.
pub proof fn law_push_then_pop(ring: Ring, mem: Seq<u8>, data: Seq<u8>)
    requires
        ring.wf(mem),
        data.len() <= ring.header(mem).slot_size - 4,
        data.len() < 0x1_0000_0000,
        ring.header(mem).count() < ring.header(mem).capacity,
    ensures
        ring.messages(ring.pushed(mem, data)).last() == data,
        ring.messages(ring.pushed(mem, data)).drop_last() == ring.messages(mem),
        ring.messages(mem).len() == 0 ==> {
            &&& ring.messages(ring.pushed(mem, data)) == seq![data]
            &&& ring.messages(ring.popped(ring.pushed(mem, data))) == ring.messages(mem)
        },
{
    lemma_push(ring, mem, data);
    assert(data.take(data.len() as int) =~= data);
    let out = ring.pushed(mem, data);
    assert(ring.messages(out).drop_last() =~= ring.messages(mem));
    if ring.messages(mem).len() == 0 {
        assert(ring.messages(out) =~= seq![data]);
        lemma_pop(ring, out);
        assert(ring.messages(ring.popped(out)) =~= ring.messages(mem));
    }
}

/// To write what a push plan says, in its order, is to push.
pub proof fn law_push_plan(ring: Ring, mem: Seq<u8>, data: Seq<u8>, plan: PushPlan)
    requires
        ring.wf(mem),
        ring.header(mem).push_fault(data.len()) is None,
        plan.at == ring.header(mem).slot_offset(ring.header(mem).head as int),
        plan.image@ == slot_image(data),
        plan.head == (ring.header(mem).head + 1) % counter_span(),
    ensures
        bytes::with_u64(
            bytes::splice(mem, ring.base + plan.at, plan.image@),
            ring.base as int,
            plan.head,
        ) == ring.pushed(mem, data),
{
    let h = ring.header(mem);
    let slot = ring.slot(mem, h.head as int);
    let n = (data.len() % 0x1_0000_0000) as u32;
    bytes::lemma_le_bytes_len(n as nat, 4);
    lemma_slot_bounds(h, h.head as int);
    assert(bytes::splice(bytes::with_u32(mem, slot, n), slot + 4, data) =~= bytes::splice(
        mem,
        slot,
        slot_image(data),
    ));
}

/// To do what a pop plan says is to pop: the slot holds the oldest message behind its length, and
/// the new tail takes it from the ring.
pub proof fn law_pop_plan(ring: Ring, mem: Seq<u8>, plan: PopPlan)
    requires
        ring.wf(mem),
        ring.header(mem).head != ring.header(mem).tail,
        plan.at == ring.header(mem).slot_offset(ring.header(mem).tail as int),
        plan.tail == (ring.header(mem).tail + 1) % counter_span(),
    ensures
        ({
            let len = bytes::u32_at(mem, ring.base + plan.at);
            let at = ring.base + plan.at + 4;
            &&& ring.messages(mem).len() > 0
            &&& ring.messages(mem)[0] == mem.subrange(at, at + len)
            &&& bytes::with_u64(mem, ring.base + 64, plan.tail) == ring.popped(mem)
        }),
{
    let h = ring.header(mem);
    lemma_count_zero(h);
    assert(ring.messages(mem)[0] == ring.message(mem, h.tail + 0));
}

/// A message can be pushed into a ring exactly if it fits behind the four-byte length of a slot
/// and fewer messages wait than there are slots. One that does not fit is too large, whatever
/// waits; one that fits is refused only by a full ring.
pub proof fn law_push_outcome(ring: Ring, mem: Seq<u8>, len: nat)
    requires
        ring.wf(mem),
        len <= usize::MAX,
    ensures
        ({
            let h = ring.header(mem);
            let fault = h.push_fault(len);
            &&& fault is None <==> len + 4 <= h.slot_size && ring.messages(mem).len() < h.capacity
            &&& len + 4 > h.slot_size ==> fault == Some(
                SynapseError::DataTooLarge {
                    data_len: len as usize,
                    slot_size: (h.slot_size - 4) as usize,
                },
            )
            &&& len + 4 <= h.slot_size && ring.messages(mem).len() >= h.capacity ==> fault == Some(
                SynapseError::RingFull,
            )
        }),
{
}

/// As many messages wait as the head counter is ahead of the tail counter, both of which wrap
/// around after 2^64.
pub proof fn law_count(h: RingHeader)
    ensures
        0 <= h.count() < 0x1_0000_0000_0000_0000,
        h.head >= h.tail ==> h.count() == h.head - h.tail,
        h.head < h.tail ==> h.count() == h.head - h.tail + 0x1_0000_0000_0000_0000,
{
}

/// A ring can exist exactly if its number of slots is a power of two, a slot has at least eight
/// bytes, and a `usize` can count its bytes: 192 and those of the slots.
pub proof fn law_shape(capacity: u64, slot_size: u64)
    ensures
        shape_ok(capacity, slot_size) <==> {
            &&& exists|k: nat| capacity as int == #[trigger] vstd::arithmetic::power2::pow2(k)
            &&& slot_size >= 8
            &&& 192 + capacity * slot_size <= usize::MAX
        },
        ring_bytes(capacity, slot_size) == 192 + capacity * slot_size,
{
    if vstd::arithmetic::power2::is_pow2(capacity as int) {
        let k = lemma_exponent(capacity);
        assert(capacity as int == vstd::arithmetic::power2::pow2(k));
    }
    if exists|k: nat| capacity as int == #[trigger] vstd::arithmetic::power2::pow2(k) {
        let k = choose|k: nat| capacity as int == #[trigger] vstd::arithmetic::power2::pow2(k);
        vstd::arithmetic::power2::lemma_pow2(k);
        vstd::arithmetic::power2::lemma_pow2_pos(k);
        vstd::arithmetic::power2::is_pow2_equiv(capacity as int);
    }
}

/// Where a ring's header is, from its base on, and where its slots are: one behind the other from
/// 192 on, and after the last one the first again.
pub proof fn law_ring_places(mem: Seq<u8>, base: int, k: int, counter: int)
    requires
        0 <= k < header_at(mem, base).capacity,
    ensures
        ({
            let h = header_at(mem, base);
            &&& h.head == bytes::u64_at(mem, base)
            &&& h.tail == bytes::u64_at(mem, base + 64)
            &&& h.capacity == bytes::u64_at(mem, base + 128)
            &&& h.slot_size == bytes::u64_at(mem, base + 136)
            &&& h.mask == bytes::u64_at(mem, base + 144)
            &&& h.slot_offset(k) == 192 + k * h.slot_size
            &&& h.slot_offset(counter + h.capacity) == h.slot_offset(counter)
        }),
{
    let h = header_at(mem, base);
    vstd::arithmetic::div_mod::lemma_small_mod(k as nat, h.capacity as nat);
    vstd::arithmetic::div_mod::lemma_mod_add_multiples_vanish(counter, h.capacity as int);
}

/// What a push changes: in the slot of the head counter the message's length, and behind it the
/// message; the head counter, which goes one further; and nothing else.
pub proof fn law_push_bytes(ring: Ring, mem: Seq<u8>, data: Seq<u8>)
    requires
        ring.wf(mem),
        data.len() + 4 <= ring.header(mem).slot_size,
        ring.messages(mem).len() < ring.header(mem).capacity,
    ensures
        ({
            let h = ring.header(mem);
            let slot = ring.base + h.slot_offset(h.head as int);
            let out = ring.pushed(mem, data);
            &&& out.len() == mem.len()
            &&& bytes::u32_at(out, slot) == data.len() % 0x1_0000_0000
            &&& forall|i: int| 0 <= i < data.len() ==> out[slot + 4 + i] == #[trigger] data[i]
            &&& bytes::u64_at(out, ring.base as int) == (h.head + 1) % 0x1_0000_0000_0000_0000
            &&& forall|i: int|
                0 <= i < mem.len() && !(slot <= i < slot + 4 + data.len()) && !(ring.base <= i
                    < ring.base + 8) ==> #[trigger] out[i] == mem[i]
        }),
{
    let h = ring.header(mem);
    let slot = ring.slot(mem, h.head as int);
    let n = (data.len() % 0x1_0000_0000) as u32;
    let next = ((h.head + 1) % counter_span()) as u64;
    let m1 = bytes::with_u32(mem, slot, n);
    let m2 = bytes::splice(m1, slot + 4, data);
    let out = bytes::with_u64(m2, ring.base as int, next);
    lemma_slot_bounds(h, h.head as int);
    bytes::law_u32_in_bytes(mem, slot, n);
    bytes::law_splice(m1, slot + 4, data);
    bytes::law_u64_in_bytes(m2, ring.base as int, next);
    bytes::lemma_same_u32(m1, out, slot, slot + 4, slot);
    assert forall|i: int| 0 <= i < data.len() implies out[slot + 4 + i] == #[trigger] data[i] by {
        assert(m2[slot + 4 + i] == data[i]);
    }
}

/// What a pop changes: the tail counter, which goes one further, and nothing else.
pub proof fn law_pop_bytes(ring: Ring, mem: Seq<u8>)
    requires
        ring.wf(mem),
    ensures
        ({
            let out = ring.popped(mem);
            &&& out.len() == mem.len()
            &&& bytes::u64_at(out, ring.base + 64) == (ring.header(mem).tail + 1)
                % 0x1_0000_0000_0000_0000
            &&& forall|i: int|
                0 <= i < mem.len() && !(ring.base + 64 <= i < ring.base + 72) ==> #[trigger] out[i]
                    == mem[i]
        }),
{
    let next = ((ring.header(mem).tail + 1) % counter_span()) as u64;
    bytes::law_u64_in_bytes(mem, ring.base + 64, next);
}

/// The messages of a ring are in the slots from the tail counter's on, each behind its length.
pub proof fn law_message_places(ring: Ring, mem: Seq<u8>, i: int)
    requires
        ring.wf(mem),
        0 <= i < ring.header(mem).count(),
    ensures
        ({
            let h = ring.header(mem);
            let slot = ring.base + h.slot_offset(h.tail + i);
            let message = ring.messages(mem)[i];
            &&& ring.messages(mem).len() == h.count()
            &&& message.len() == bytes::u32_at(mem, slot)
            &&& message.len() + 4 <= h.slot_size
            &&& forall|j: int| 0 <= j < message.len() ==> #[trigger] message[j] == mem[slot + 4 + j]
        }),
{
    let h = ring.header(mem);
    lemma_slot_bounds(h, h.tail + i);
    assert(ring.message_len(mem, h.tail + i) <= h.slot_size - 4);
}

} // verus!
