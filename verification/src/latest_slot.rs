//! Latest-value slots: one writer, any number of readers, no lock.
//!
//! Layout, from the slot's base: a sequence counter at 0, the value's size at 8, the value from
//! 16 on. The counter is even while the value is stable and odd while a write is in progress. A
//! reader copies the value between two looks at the counter and keeps the copy only if both
//! found the same even number.
use std::marker::PhantomData;
use vstd::prelude::*;
use crate::bytes;
use crate::bytes::{copy_in, copy_range, get_u64, put_u64};

verus! {

/// Size of the slot header: sequence counter and value size.
pub const SLOT_HEADER_SIZE: usize = 16;

/// Maximum number of read retries before giving up.
pub const MAX_READ_RETRIES: usize = 1000;

/// How a read goes on after its first look at the counter.
#[derive(Debug, Clone, Copy, PartialEq, Eq, Structural)]
pub enum ReadStep {
    /// No value was written yet: the read ends with nothing.
    Empty,
    /// A write is in progress: look again.
    Retry,
    /// The value is stable: copy it, and look at the counter again.
    Copy,
}

/// How a read goes on that found `sequence` in the counter.
pub open spec fn read_step(sequence: u64) -> ReadStep {
    if sequence == 0 {
        ReadStep::Empty
    } else if sequence % 2 == 1 {
        ReadStep::Retry
    } else {
        ReadStep::Copy
    }
}

/// How a read goes on that found `sequence` in the counter.
pub fn begin_read(sequence: u64) -> (step: ReadStep)
    ensures
        step == read_step(sequence),
{
    if sequence == 0 {
        ReadStep::Empty
    } else if sequence % 2 != 0 {
        ReadStep::Retry
    } else {
        ReadStep::Copy
    }
}

/// How an attempt at a read ends.
#[derive(Debug, Clone, Copy, PartialEq, Eq, Structural)]
pub enum Settled {
    /// The copy can be kept.
    Keep,
    /// The attempt failed: try again.
    Retry,
    /// The attempt failed, and it was the last one: the read ends with nothing.
    GiveUp,
}

/// How an attempt ends that met a write, after `tries` others.
pub open spec fn after_miss(tries: int) -> Settled {
    if tries + 1 < MAX_READ_RETRIES {
        Settled::Retry
    } else {
        Settled::GiveUp
    }
}

/// How an attempt ends that copied the value between two looks at the counter, after `tries`
/// others: the copy can be kept if the counter has not moved.
pub open spec fn settled(tries: int, before: u64, after: u64) -> Settled {
    if before == after {
        Settled::Keep
    } else {
        after_miss(tries)
    }
}

/// How an attempt ends that met a write in progress, after `tries` others.
pub fn retry_read(tries: usize) -> (s: Settled)
    ensures
        s == after_miss(tries as int),
{
    if tries < MAX_READ_RETRIES - 1 {
        Settled::Retry
    } else {
        Settled::GiveUp
    }
}

/// How an attempt ends that copied the value between two looks at the counter, after `tries`
/// others.
pub fn settle_read(tries: usize, before: u64, after: u64) -> (s: Settled)
    ensures
        s == settled(tries as int, before, after),
{
    if before == after {
        Settled::Keep
    } else {
        retry_read(tries)
    }
}

/// The counter while the write that found it at `sequence` is in progress.
pub fn writing_sequence(sequence: u64) -> (next: u64)
    ensures
        next == (sequence + 1) % 0x1_0000_0000_0000_0000,
{
    sequence.wrapping_add(1)
}

/// The counter after the write that found it at `sequence`.
pub fn written_sequence(sequence: u64) -> (next: u64)
    ensures
        next == (sequence + 2) % 0x1_0000_0000_0000_0000,
{
    sequence.wrapping_add(2)
}

/// A latest-value slot at a place in a region, for values of type `T`, as their bytes.
#[derive(Debug)]
pub struct LatestSlot<T: Copy> {
    /// Where the slot starts in the region.
    pub base: usize,
    pub _marker: PhantomData<T>,
}

impl<T: Copy> LatestSlot<T> {
    /// Whether `mem` has room for the slot.
    pub open spec fn fits(self, mem: Seq<u8>) -> bool {
        self.base + SLOT_HEADER_SIZE + vstd::layout::size_of::<T>() <= mem.len()
    }

    /// The sequence counter.
    pub open spec fn sequence_in(self, mem: Seq<u8>) -> u64 {
        bytes::u64_at(mem, self.base as int)
    }

    /// The bytes of the value.
    pub open spec fn payload(self, mem: Seq<u8>) -> Seq<u8> {
        mem.subrange(self.base + 16, self.base + 16 + vstd::layout::size_of::<T>())
    }

    /// `mem` after a value was written.
    pub open spec fn written(self, mem: Seq<u8>, value: Seq<u8>) -> Seq<u8> {
        let sequence = self.sequence_in(mem);
        let m1 = bytes::with_u64(
            mem,
            self.base as int,
            ((sequence + 1) % 0x1_0000_0000_0000_0000) as u64,
        );
        let m2 = bytes::splice(m1, self.base + 16, value);
        bytes::with_u64(m2, self.base as int, ((sequence + 2) % 0x1_0000_0000_0000_0000) as u64)
    }

    /// Initializes an empty slot at `base`.
    pub fn init(region: &mut [u8], base: usize)
        requires
            base + SLOT_HEADER_SIZE + vstd::layout::size_of::<T>() <= old(region)@.len(),
        ensures
            final(region)@ == bytes::with_u64(
                bytes::with_u64(old(region)@, base as int, 0),
                base + 8,
                vstd::layout::size_of::<T>() as u64,
            ),
            bytes::u64_at(final(region)@, base as int) == 0,
            bytes::u64_at(final(region)@, base + 8) == vstd::layout::size_of::<T>(),
    {
        let size: u64 = core::mem::size_of::<T>() as u64;
        proof {
            let m1 = bytes::with_u64(region@, base as int, 0);
            let m2 = bytes::with_u64(m1, base + 8, size);
            bytes::lemma_le_bytes_len(0, 8);
            bytes::lemma_le_bytes_len(size as nat, 8);
            bytes::lemma_u64_same(region@, base as int, 0);
            bytes::lemma_u64_same(m1, base + 8, size);
            bytes::lemma_same_u64(m1, m2, base as int, base + 8, base as int);
        }
        assert(base + SLOT_HEADER_SIZE <= region.len());
        put_u64(region, base, 0);
        put_u64(region, base + 8, size);
    }

    /// A view of the slot at `base`.
    pub fn from_ptr(base: usize) -> (slot: LatestSlot<T>)
        ensures
            slot.base == base,
    {
        LatestSlot { base, _marker: PhantomData }
    }

    /// Total bytes needed for a slot (header + value).
    pub fn required_size() -> (size: usize)
        requires
            SLOT_HEADER_SIZE + vstd::layout::size_of::<T>() <= usize::MAX,
        ensures
            size == SLOT_HEADER_SIZE + vstd::layout::size_of::<T>(),
    {
        SLOT_HEADER_SIZE + core::mem::size_of::<T>()
    }

    /// Writes a new value, given by its bytes, to the slot.
    pub fn write(&self, region: &mut [u8], value: &[u8])
        requires
            self.fits(old(region)@),
            value@.len() == vstd::layout::size_of::<T>(),
        ensures
            final(region)@ == self.written(old(region)@, value@),
            self.fits(final(region)@),
            self.sequence_in(final(region)@) == (self.sequence_in(old(region)@) + 2)
                % 0x1_0000_0000_0000_0000,
            self.payload(final(region)@) == value@,
    {
        proof {
            lemma_written(*self, region@, value@);
        }
        assert(self.base + 16 + value.len() <= region.len());
        let current: u64 = get_u64(region, self.base);
        put_u64(region, self.base, writing_sequence(current));
        copy_in(region, self.base + SLOT_HEADER_SIZE, value);
        put_u64(region, self.base, written_sequence(current));
    }

    /// Reads the bytes of the latest value from the slot.
    ///
    /// Returns `None` if no value has been written yet, or if a write is in progress.
    pub fn read(&self, region: &[u8]) -> (out: Option<Vec<u8>>)
        requires
            self.fits(region@),
        ensures
            match out {
                Some(value) => {
                    &&& read_step(self.sequence_in(region@)) == ReadStep::Copy
                    &&& value@ == self.payload(region@)
                },
                None => read_step(self.sequence_in(region@)) != ReadStep::Copy,
            },
    {
        let size: usize = core::mem::size_of::<T>();
        assert(self.base + 16 + size <= region.len());
        let mut tries: usize = 0;
        loop
            invariant
                self.fits(region@),
                size == vstd::layout::size_of::<T>(),
                self.base + 16 + size <= usize::MAX,
                tries < MAX_READ_RETRIES,
                tries > 0 ==> read_step(self.sequence_in(region@)) == ReadStep::Retry,
            decreases MAX_READ_RETRIES - tries,
        {
            let before: u64 = self.sequence(region);
            let end: Settled = match begin_read(before) {
                ReadStep::Empty => {
                    return None;
                },
                ReadStep::Retry => retry_read(tries),
                ReadStep::Copy => {
                    let value: Vec<u8> = copy_range(region, self.base + SLOT_HEADER_SIZE, size);
                    let end: Settled = settle_read(tries, before, self.sequence(region));
                    if end == Settled::Keep {
                        return Some(value);
                    }
                    end
                },
            };
            if end == Settled::GiveUp {
                return None;
            }
            tries = tries + 1;
        }
    }

    /// The current sequence number.
    pub fn sequence(&self, region: &[u8]) -> (sequence: u64)
        requires
            self.fits(region@),
        ensures
            sequence == self.sequence_in(region@),
    {
        get_u64(region, self.base)
    }

    /// Checks if a value has been written (sequence > 0 and even).
    pub fn has_value(&self, region: &[u8]) -> (r: bool)
        requires
            self.fits(region@),
        ensures
            r == (self.sequence_in(region@) > 0 && self.sequence_in(region@) % 2 == 0),
    {
        let sequence: u64 = self.sequence(region);
        sequence > 0 && sequence % 2 == 0
    }
}

/// A written slot holds the value, and a counter two further.
pub proof fn lemma_written<T: Copy>(slot: LatestSlot<T>, mem: Seq<u8>, value: Seq<u8>)
    requires
        slot.fits(mem),
        value.len() == vstd::layout::size_of::<T>(),
    ensures
        ({
            let out = slot.written(mem, value);
            &&& out.len() == mem.len()
            &&& slot.sequence_in(out) == (slot.sequence_in(mem) + 2) % 0x1_0000_0000_0000_0000
            &&& slot.payload(out) == value
        }),
{
    let base = slot.base as int;
    let sequence = slot.sequence_in(mem);
    let odd = ((sequence + 1) % 0x1_0000_0000_0000_0000) as u64;
    let even = ((sequence + 2) % 0x1_0000_0000_0000_0000) as u64;
    let m2 = bytes::splice(bytes::with_u64(mem, base, odd), base + 16, value);
    bytes::lemma_le_bytes_len(odd as nat, 8);
    bytes::lemma_le_bytes_len(even as nat, 8);
    bytes::lemma_u64_same(m2, base, even);
    assert(slot.payload(slot.written(mem, value)) =~= value);
}

/// A value written to a stable slot is what the next read gives, until the counter wraps around
/// to zero.
pub proof fn law_read_gets_latest<T: Copy>(slot: LatestSlot<T>, mem: Seq<u8>, value: Seq<u8>)
    requires
        slot.fits(mem),
        value.len() == vstd::layout::size_of::<T>(),
        slot.sequence_in(mem) % 2 == 0,
        slot.sequence_in(mem) != 0xffff_ffff_ffff_fffe,
    ensures
        ({
            let out = slot.written(mem, value);
            &&& read_step(slot.sequence_in(out)) == ReadStep::Copy
            &&& slot.payload(out) == value
            &&& slot.sequence_in(out) == slot.sequence_in(mem) + 2
        }),
{
    lemma_written(slot, mem, value);
}

/// A read finds no value while the counter is zero, has to look again while it is odd, and copies
/// the value otherwise.
pub proof fn law_read_steps(sequence: u64)
    ensures
        read_step(sequence) == ReadStep::Empty <==> sequence == 0,
        read_step(sequence) == ReadStep::Retry <==> sequence % 2 == 1,
        read_step(sequence) == ReadStep::Copy <==> sequence != 0 && sequence % 2 == 0,
{
}

/// A copy is kept exactly if the counter was the same before and after; else a read tries again,
/// a thousand times in all.
pub proof fn law_attempts(tries: int, before: u64, after: u64)
    requires
        0 <= tries,
    ensures
        settled(tries, before, after) == Settled::Keep <==> before == after,
        before != after ==> settled(tries, before, after) == after_miss(tries),
        after_miss(tries) == Settled::Retry <==> tries < 999,
        after_miss(tries) == Settled::GiveUp <==> tries >= 999,
{
}

/// A slot has its counter at its base and its value 16 bytes further on. A write changes the value
/// and takes the counter two further, and changes nothing else.
pub proof fn law_slot_places<T: Copy>(slot: LatestSlot<T>, mem: Seq<u8>, value: Seq<u8>)
    requires
        slot.fits(mem),
        value.len() == vstd::layout::size_of::<T>(),
    ensures
        ({
            let out = slot.written(mem, value);
            let base = slot.base as int;
            let end = base + 16 + value.len();
            &&& end <= mem.len()
            &&& slot.sequence_in(mem) == bytes::u64_at(mem, base)
            &&& slot.payload(mem) == mem.subrange(base + 16, end)
            &&& out.len() == mem.len()
            &&& bytes::u64_at(out, base) == (bytes::u64_at(mem, base) + 2)
                % 0x1_0000_0000_0000_0000
            &&& out.subrange(base + 16, end) == value
            &&& forall|i: int|
                0 <= i < mem.len() && !(base <= i < base + 8) && !(base + 16 <= i < end)
                    ==> #[trigger] out[i] == mem[i]
        }),
{
    lemma_written(slot, mem, value);
    let sequence = slot.sequence_in(mem);
    bytes::lemma_le_bytes_len(((sequence + 1) % 0x1_0000_0000_0000_0000) as nat, 8);
    bytes::lemma_le_bytes_len(((sequence + 2) % 0x1_0000_0000_0000_0000) as nat, 8);
}

} // verus!
