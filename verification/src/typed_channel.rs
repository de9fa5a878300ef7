//! Typed channels over rings, and a registry of named channels in one region.
//!
//! Registry layout, from its base: the channel count at 0, then from 8 on up to 64 entries of 72
//! bytes each: a 48-byte name ended by a zero byte, and three 64-bit numbers (offset, capacity,
//! slot size).
use std::marker::PhantomData;
use vstd::prelude::*;
use crate::bytes;
use crate::bytes::{copy_in, get_u32, get_u64, put_u32, put_u64};
use crate::error::SynapseError;
use crate::ring;
use crate::ring::{Ring, RingHeader};
use crate::text;
use crate::text::{find_nul, push_decimal, same_text};

verus! {

/// Maximum number of channels in a single registry.
pub const MAX_CHANNELS: usize = 64;

/// Size of the name field in a registry entry.
const CHANNEL_NAME_LEN: usize = 48;

/// Registry header size: count (4) + padding (4).
const REGISTRY_HEADER_SIZE: usize = 8;

/// Size of a single registry entry: name (48) + offset (8) + capacity (8) + slot size (8).
const REGISTRY_ENTRY_SIZE: usize = 72;

/// Total registry size.
pub const REGISTRY_SIZE: usize = 8 + 64 * 72;

/// `core::str::Utf8Error` of std, which says where a byte string stops being UTF-8.
#[verifier::external_type_specification]
#[verifier::external_body]
pub struct ExUtf8Error(core::str::Utf8Error);

/// `core::str::from_utf8` of std succeeds exactly on valid UTF-8, and then gives the text that
/// the bytes encode.
pub assume_specification[ core::str::from_utf8 ](v: &[u8]) -> (r: Result<
    &str,
    core::str::Utf8Error,
>)
    ensures
        r is Ok <==> vstd::utf8::valid_utf8(v@),
        r matches Ok(s) ==> vstd::utf8::encode_utf8(s@) == v@,
;

/// A registry entry.
#[derive(Debug, Clone, Copy)]
pub struct ChannelEntry {
    /// Null-terminated channel name (max 47 bytes + null).
    pub name: [u8; 48],
    /// Byte offset from the start of the region to this channel's ring.
    pub offset: u64,
    /// Ring capacity (number of slots).
    pub capacity: u64,
    /// Slot size in bytes.
    pub slot_size: u64,
}

/// Channel descriptor returned from registry lookups.
#[derive(Debug, Clone)]
pub struct ChannelDescriptor {
    pub name: String,
    pub offset: usize,
    pub capacity: u64,
    pub slot_size: u64,
}

/// What a channel descriptor says.
pub struct ChannelInfo {
    pub name: Seq<char>,
    pub offset: usize,
    pub capacity: u64,
    pub slot_size: u64,
}

impl View for ChannelDescriptor {
    type V = ChannelInfo;

    open spec fn view(&self) -> ChannelInfo {
        ChannelInfo {
            name: self.name@,
            offset: self.offset,
            capacity: self.capacity,
            slot_size: self.slot_size,
        }
    }
}

/// The text in a name field: what stands before the first zero byte, or nothing if that is not
/// UTF-8.
pub open spec fn name_text(field: Seq<u8>) -> Seq<char> {
    let name = field.take(text::nul_at(field) as int);
    if vstd::utf8::valid_utf8(name) {
        vstd::utf8::decode_utf8(name)
    } else {
        Seq::empty()
    }
}

/// The text under which a name is found again: what stands before its first null character.
pub open spec fn stored_name(name: Seq<char>) -> Seq<char> {
    name_text(vstd::utf8::encode_utf8(name).push(0))
}

/// The first channel with this name.
pub open spec fn find(channels: Seq<ChannelInfo>, name: Seq<char>) -> Option<ChannelInfo>
    decreases channels.len(),
{
    if channels.len() == 0 {
        None
    } else if channels[0].name == name {
        Some(channels[0])
    } else {
        find(channels.drop_first(), name)
    }
}

/// Registry mapping channel names to rings within a region.
#[derive(Debug, Clone, Copy, PartialEq, Eq)]
pub struct ChannelRegistry {
    /// Where the registry starts in the region.
    pub base: usize,
}

impl ChannelRegistry {
    /// How many channels are registered.
    pub open spec fn count_in(self, mem: Seq<u8>) -> u32 {
        bytes::u32_at(mem, self.base as int)
    }

    /// Where an entry starts.
    pub open spec fn entry_at(self, index: int) -> int {
        self.base + 8 + index * 72
    }

    /// What an entry says.
    pub open spec fn channel_at(self, mem: Seq<u8>, index: int) -> ChannelInfo {
        let at = self.entry_at(index);
        ChannelInfo {
            name: name_text(mem.subrange(at, at + 48)),
            offset: bytes::u64_at(mem, at + 48) as usize,
            capacity: bytes::u64_at(mem, at + 56),
            slot_size: bytes::u64_at(mem, at + 64),
        }
    }

    /// The registered channels, in the order of registration.
    pub open spec fn channels_in(self, mem: Seq<u8>) -> Seq<ChannelInfo> {
        Seq::new(self.count_in(mem) as nat, |i: int| self.channel_at(mem, i))
    }

    /// Whether `mem` has room for a registry at this place.
    pub open spec fn fits(self, mem: Seq<u8>) -> bool {
        self.base + REGISTRY_SIZE <= mem.len()
    }

    /// Whether `mem` holds a registry at this place: there is room for it, and it has entries for
    /// all the channels that it counts.
    pub open spec fn wf(self, mem: Seq<u8>) -> bool {
        &&& self.fits(mem)
        &&& self.count_in(mem) <= MAX_CHANNELS
    }

    /// Why a channel cannot be registered under `name`, if it cannot.
    pub open spec fn register_fault(self, mem: Seq<u8>, name: Seq<char>) -> Option<Seq<char>> {
        let len = vstd::utf8::encode_utf8(name).len();
        if self.count_in(mem) >= MAX_CHANNELS {
            Some("channel registry full"@)
        } else if len >= 48 {
            Some("channel name too long: "@ + text::decimal(len) + " (max 47)"@)
        } else if find(self.channels_in(mem), name) is Some {
            Some("duplicate channel name: "@ + name)
        } else {
            None
        }
    }

    /// `mem` after a channel was registered.
    pub open spec fn registered(
        self,
        mem: Seq<u8>,
        name: Seq<char>,
        offset: u64,
        capacity: u64,
        slot_size: u64,
    ) -> Seq<u8> {
        let count = self.count_in(mem);
        let at = self.entry_at(count as int);
        let m1 = bytes::splice(mem, at, vstd::utf8::encode_utf8(name).push(0));
        let m2 = bytes::with_u64(m1, at + 48, offset);
        let m3 = bytes::with_u64(m2, at + 56, capacity);
        let m4 = bytes::with_u64(m3, at + 64, slot_size);
        bytes::with_u32(m4, self.base as int, (count + 1) as u32)
    }

    /// Initializes an empty registry at `base`.
    pub fn init(region: &mut [u8], base: usize)
        requires
            base + REGISTRY_SIZE <= old(region)@.len(),
        ensures
            final(region)@ == bytes::with_u32(old(region)@, base as int, 0),
            (ChannelRegistry { base }).wf(final(region)@),
            (ChannelRegistry { base }).channels_in(final(region)@) == Seq::<
                ChannelInfo,
            >::empty(),
    {
        proof {
            bytes::lemma_u32_same(region@, base as int, 0);
        }
        put_u32(region, base, 0);
        assert((ChannelRegistry { base }).channels_in(region@) =~= Seq::<ChannelInfo>::empty());
    }

    /// A view of the registry at `base`.
    pub fn from_ptr(base: usize) -> (registry: ChannelRegistry)
        ensures
            registry.base == base,
    {
        ChannelRegistry { base }
    }

    /// Number of registered channels, as it is stored.
    pub fn count(&self, region: &[u8]) -> (n: u32)
        requires
            self.fits(region@),
        ensures
            n == self.count_in(region@),
            n == self.channels_in(region@).len(),
    {
        get_u32(region, self.base)
    }

    /// Registers a new channel, and returns the entry index.
    pub fn register(
        &self,
        region: &mut [u8],
        name: &str,
        offset: u64,
        capacity: u64,
        slot_size: u64,
    ) -> (r: Result<u32, SynapseError>)
        requires
            self.fits(old(region)@),
        ensures
            self.fits(final(region)@),
            match r {
                Ok(index) => {
                    &&& self.wf(final(region)@)
                    &&& self.register_fault(old(region)@, name@) is None
                    &&& index == self.channels_in(old(region)@).len()
                    &&& final(region)@ == self.registered(
                        old(region)@,
                        name@,
                        offset,
                        capacity,
                        slot_size,
                    )
                    &&& self.channels_in(final(region)@) == self.channels_in(old(region)@).push(
                        ChannelInfo {
                            name: stored_name(name@),
                            offset: offset as usize,
                            capacity,
                            slot_size,
                        },
                    )
                    &&& bytes::same_range(old(region)@, final(region)@, 0, self.base as int)
                    &&& bytes::same_range(
                        old(region)@,
                        final(region)@,
                        self.base + REGISTRY_SIZE,
                        old(region)@.len() as int,
                    )
                },
                Err(SynapseError::InvalidState(message)) => {
                    &&& self.register_fault(old(region)@, name@) == Some(message@)
                    &&& final(region)@ == old(region)@
                },
                Err(_) => false,
            },
            r is Ok <==> {
                &&& self.count_in(old(region)@) < 64
                &&& vstd::utf8::encode_utf8(name@).len() <= 47
                &&& forall|i: int|
                    0 <= i < self.count_in(old(region)@) ==> (#[trigger] self.channels_in(
                        old(region)@,
                    )[i]).name != name@
            },
    {
        proof {
            law_find(self.channels_in(region@), name@);
        }
        let count: u32 = self.count(region);
        if count as usize >= MAX_CHANNELS {
            let mut message: String = String::new();
            message.append("channel registry full");
            assert(message@ =~= "channel registry full"@);
            return Err(SynapseError::InvalidState(message));
        }
        let name_bytes: &[u8] = name.as_bytes();
        if name_bytes.len() >= CHANNEL_NAME_LEN {
            let mut message: String = String::new();
            message.append("channel name too long: ");
            push_decimal(&mut message, name_bytes.len() as u64);
            message.append(" (max 47)");
            assert(message@ =~= self.register_fault(region@, name@).unwrap());
            return Err(SynapseError::InvalidState(message));
        }
        if self.lookup(region, name).is_some() {
            let mut message: String = String::new();
            message.append("duplicate channel name: ");
            message.append(name);
            assert(message@ =~= "duplicate channel name: "@ + name@);
            return Err(SynapseError::InvalidState(message));
        }
        let ghost before = region@;
        proof {
            lemma_register(*self, before, name@, offset, capacity, slot_size);
        }
        let at: usize = self.entry_ptr(region, count);
        let len: usize = name_bytes.len();
        assert(at + 72 <= region.len());
        copy_in(region, at, name_bytes);
        assert(at + 72 <= region.len());
        region[at + len] = 0;
        assert(region@ =~= bytes::splice(
            before,
            at as int,
            vstd::utf8::encode_utf8(name@).push(0),
        ));
        put_u64(region, at + 48, offset);
        put_u64(region, at + 56, capacity);
        put_u64(region, at + 64, slot_size);
        put_u32(region, self.base, count + 1);
        Ok(count)
    }

    /// Looks up a channel by name.
    pub fn lookup(&self, region: &[u8], name: &str) -> (r: Option<ChannelDescriptor>)
        requires
            self.wf(region@),
        ensures
            match r {
                Some(found) => find(self.channels_in(region@), name@) == Some(found@),
                None => find(self.channels_in(region@), name@) is None,
            },
    {
        let count: u32 = self.count(region);
        let ghost all = self.channels_in(region@);
        let mut i: u32 = 0;
        assert(all.skip(0) =~= all);
        while i < count
            invariant
                self.wf(region@),
                i <= count,
                count == all.len(),
                all == self.channels_in(region@),
                find(all, name@) == find(all.skip(i as int), name@),
            decreases count - i,
        {
            let entry: ChannelEntry = self.entry(region, i);
            assert(all.skip(i as int)[0] == all[i as int]);
            assert(all.skip(i as int).drop_first() =~= all.skip(i + 1));
            if same_text(entry_name(&entry.name), name) {
                return Some(
                    ChannelDescriptor {
                        name: name.to_owned(),
                        offset: entry.offset as usize,
                        capacity: entry.capacity,
                        slot_size: entry.slot_size,
                    },
                );
            }
            i = i + 1;
        }
        None
    }

    /// All registered channels, in the order of registration.
    pub fn channels(&self, region: &[u8]) -> (out: Vec<ChannelDescriptor>)
        requires
            self.wf(region@),
        ensures
            out@.map_values(|d: ChannelDescriptor| d@) == self.channels_in(region@),
    {
        let count: u32 = self.count(region);
        let ghost all = self.channels_in(region@);
        let mut out: Vec<ChannelDescriptor> = Vec::new();
        let mut i: u32 = 0;
        while i < count
            invariant
                self.wf(region@),
                i <= count,
                count == all.len(),
                all == self.channels_in(region@),
                out@.len() == i,
                forall|j: int| 0 <= j < i ==> (#[trigger] out@[j])@ == all[j],
            decreases count - i,
        {
            let entry: ChannelEntry = self.entry(region, i);
            out.push(
                ChannelDescriptor {
                    name: entry_name(&entry.name).to_owned(),
                    offset: entry.offset as usize,
                    capacity: entry.capacity,
                    slot_size: entry.slot_size,
                },
            );
            assert(out@[i as int]@ == all[i as int]);
            i = i + 1;
        }
        assert(out@.map_values(|d: ChannelDescriptor| d@) =~= all);
        out
    }

    fn entry_ptr(&self, region: &[u8], index: u32) -> (at: usize)
        requires
            self.wf(region@),
            index < MAX_CHANNELS,
        ensures
            at == self.entry_at(index as int),
            at + 72 <= region@.len(),
    {
        assert(self.base + REGISTRY_SIZE <= region.len());
        self.base + REGISTRY_HEADER_SIZE + index as usize * REGISTRY_ENTRY_SIZE
    }

    fn entry(&self, region: &[u8], index: u32) -> (entry: ChannelEntry)
        requires
            self.wf(region@),
            index < MAX_CHANNELS,
        ensures
            ({
                let at = self.entry_at(index as int);
                &&& entry.name@ == region@.subrange(at, at + 48)
                &&& entry.offset == bytes::u64_at(region@, at + 48)
                &&& entry.capacity == bytes::u64_at(region@, at + 56)
                &&& entry.slot_size == bytes::u64_at(region@, at + 64)
            }),
    {
        let at: usize = self.entry_ptr(region, index);
        assert(at + 72 <= region.len());
        let mut name: [u8; 48] = [0; 48];
        let mut i: usize = 0;
        while i < 48
            invariant
                i <= 48,
                at + 72 <= region@.len(),
                forall|j: int| 0 <= j < i ==> name@[j] == region@[at + j],
            decreases 48 - i,
        {
            assert(at + 72 <= region.len());
            name[i] = region[at + i];
            i = i + 1;
        }
        assert(name@ =~= region@.subrange(at as int, at + 48));
        ChannelEntry {
            name,
            offset: get_u64(region, at + 48),
            capacity: get_u64(region, at + 56),
            slot_size: get_u64(region, at + 64),
        }
    }
}

/// The channel name in a name field.
fn entry_name(name_buf: &[u8; 48]) -> (name: &str)
    ensures
        name@ == name_text(name_buf@),
{
    let field: &[u8] = name_buf.as_slice();
    let end: usize = find_nul(field);
    proof {
        text::lemma_nul_at(field@);
    }
    let name: &[u8] = &field[0..end];
    assert(name@ =~= field@.take(end as int));
    match core::str::from_utf8(name) {
        Ok(text) => {
            proof {
                vstd::utf8::encode_utf8_decode_utf8(text@);
            }
            text
        },
        Err(_) => {
            proof {
                reveal_strlit("");
                assert(""@ =~= Seq::<char>::empty());
            }
            ""
        },
    }
}

/// What stands before the first zero byte does not depend on what follows that byte.
proof fn lemma_nul_prefix(a: Seq<u8>, b: Seq<u8>)
    requires
        a.is_prefix_of(b),
        a.len() > 0,
        a.last() == 0,
    ensures
        text::nul_at(b) == text::nul_at(a),
        text::nul_at(a) < a.len(),
        b.take(text::nul_at(b) as int) == a.take(text::nul_at(a) as int),
    decreases a.len(),
{
    assert(a[0] == b[0]);
    if a[0] != 0 {
        assert(a.len() > 1);
        lemma_nul_prefix(a.drop_first(), b.drop_first());
    }
    assert(b.take(text::nul_at(b) as int) =~= a.take(text::nul_at(a) as int));
}

/// Registering appends the channel to the registered ones and touches nothing outside the
/// registry.
proof fn lemma_register(
    registry: ChannelRegistry,
    mem: Seq<u8>,
    name: Seq<char>,
    offset: u64,
    capacity: u64,
    slot_size: u64,
)
    requires
        registry.wf(mem),
        registry.count_in(mem) < MAX_CHANNELS,
        vstd::utf8::encode_utf8(name).len() < 48,
    ensures
        ({
            let out = registry.registered(mem, name, offset, capacity, slot_size);
            &&& registry.wf(out)
            &&& out.len() == mem.len()
            &&& registry.channels_in(out) == registry.channels_in(mem).push(
                ChannelInfo {
                    name: stored_name(name),
                    offset: offset as usize,
                    capacity,
                    slot_size,
                },
            )
            &&& bytes::same_range(mem, out, 0, registry.base as int)
            &&& bytes::same_range(mem, out, registry.base + REGISTRY_SIZE, mem.len() as int)
        }),
{
    let base = registry.base as int;
    let count = registry.count_in(mem);
    let at = registry.entry_at(count as int);
    let field = vstd::utf8::encode_utf8(name).push(0);
    let m1 = bytes::splice(mem, at, field);
    let m2 = bytes::with_u64(m1, at + 48, offset);
    let m3 = bytes::with_u64(m2, at + 56, capacity);
    let m4 = bytes::with_u64(m3, at + 64, slot_size);
    let out = bytes::with_u32(m4, base, (count + 1) as u32);
    bytes::lemma_le_bytes_len(offset as nat, 8);
    bytes::lemma_le_bytes_len(capacity as nat, 8);
    bytes::lemma_le_bytes_len(slot_size as nat, 8);
    bytes::lemma_le_bytes_len((count + 1) as nat, 4);
    bytes::lemma_u64_same(m1, at + 48, offset);
    bytes::lemma_u64_same(m2, at + 56, capacity);
    bytes::lemma_u64_same(m3, at + 64, slot_size);
    bytes::lemma_u32_same(m4, base, (count + 1) as u32);
    bytes::lemma_same_u64(m2, out, at + 48, at + 56, at + 48);
    bytes::lemma_same_u64(m3, out, at + 56, at + 64, at + 56);
    bytes::lemma_same_u64(m4, out, at + 64, at + 72, at + 64);
    let info = ChannelInfo {
        name: stored_name(name),
        offset: offset as usize,
        capacity,
        slot_size,
    };
    let new_field = out.subrange(at, at + 48);
    assert(field.is_prefix_of(new_field)) by {
        assert(field =~= new_field.take(field.len() as int));
    }
    lemma_nul_prefix(field, new_field);
    assert(registry.channel_at(out, count as int) == info);
    assert forall|i: int| 0 <= i < count implies registry.channel_at(out, i)
        == #[trigger] registry.channel_at(mem, i) by {
        let from = registry.entry_at(i);
        assert(bytes::same_range(mem, out, from, from + 72));
        bytes::lemma_same_u64(mem, out, from, from + 72, from + 48);
        bytes::lemma_same_u64(mem, out, from, from + 72, from + 56);
        bytes::lemma_same_u64(mem, out, from, from + 72, from + 64);
        assert(out.subrange(from, from + 48) =~= mem.subrange(from, from + 48));
    }
    assert(registry.channels_in(out) =~= registry.channels_in(mem).push(info));
}

/// A channel registered under a name without null characters is found under it, and looking up
/// any other name finds what it found before.
pub proof fn law_lookup_after_register(
    channels: Seq<ChannelInfo>,
    name: Seq<char>,
    other: Seq<char>,
    info: ChannelInfo,
)
    requires
        !name.contains('\0'),
        find(channels, name) is None,
        info.name == stored_name(name),
        other != name,
    ensures
        stored_name(name) == name,
        find(channels.push(info), name) == Some(info),
        find(channels.push(info), other) == find(channels, other),
    decreases channels.len(),
{
    lemma_stored_name(name);
    if channels.len() == 0 {
        assert(channels.push(info).drop_first() =~= channels);
    } else {
        law_lookup_after_register(channels.drop_first(), name, other, info);
        assert(channels.push(info).drop_first() =~= channels.drop_first().push(info));
    }
}

proof fn lemma_stored_name(name: Seq<char>)
    requires
        !name.contains('\0'),
    ensures
        stored_name(name) == name,
{
    let all = vstd::utf8::encode_utf8(name);
    text::lemma_zero_bytes(name);
    text::lemma_nul_at(all.push(0));
    assert forall|i: int| 0 <= i < all.len() implies all.push(0)[i] != 0 by {
        assert(all[i] != 0);
    }
    assert(all.push(0)[all.len() as int] == 0);
    assert(all.push(0).take(all.len() as int) =~= all);
    vstd::utf8::encode_utf8_valid_utf8(name);
    vstd::utf8::encode_utf8_decode_utf8(name);
}

/// Whether no two channels have the same name.
pub open spec fn distinct_names(channels: Seq<ChannelInfo>) -> bool {
    forall|i: int, j: int|
        0 <= i < j < channels.len() ==> #[trigger] channels[i].name != #[trigger] channels[j].name
}

/// Registration keeps names distinct, as long as they hold no null characters.
pub proof fn law_names_stay_distinct(channels: Seq<ChannelInfo>, name: Seq<char>, info: ChannelInfo)
    requires
        !name.contains('\0'),
        distinct_names(channels),
        find(channels, name) is None,
        info.name == stored_name(name),
    ensures
        distinct_names(channels.push(info)),
{
    lemma_stored_name(name);
    lemma_not_found(channels, name);
}

proof fn lemma_not_found(channels: Seq<ChannelInfo>, name: Seq<char>)
    requires
        find(channels, name) is None,
    ensures
        forall|i: int| 0 <= i < channels.len() ==> (#[trigger] channels[i]).name != name,
    decreases channels.len(),
{
    if channels.len() > 0 {
        lemma_not_found(channels.drop_first(), name);
        assert forall|i: int| 0 <= i < channels.len() implies (#[trigger] channels[i]).name
            != name by {
            if i > 0 {
                assert(channels[i] == channels.drop_first()[i - 1]);
            }
        }
    }
}

/// A channel over a ring that carries values of type `T`, as their bytes.
#[derive(Debug)]
pub struct TypedChannel<T: Copy> {
    pub ring: Ring,
    pub _marker: PhantomData<T>,
}

impl<T: Copy> TypedChannel<T> {
    /// Creates a typed channel over the ring at `ring_base`; values of the type must fit its
    /// slots.
    pub fn from_ring_ptr(region: &[u8], ring_base: usize) -> (r: Result<
        TypedChannel<T>,
        SynapseError,
    >)
        requires
            (Ring { base: ring_base }).wf(region@),
        ensures
            ({
                let payload = (Ring { base: ring_base }).header(region@).slot_size - 4;
                match r {
                    Ok(channel) => {
                        &&& vstd::layout::size_of::<T>() <= payload
                        &&& channel.ring.base == ring_base
                    },
                    Err(e) => {
                        &&& vstd::layout::size_of::<T>() > payload
                        &&& e == (SynapseError::DataTooLarge {
                            data_len: vstd::layout::size_of::<T>() as usize,
                            slot_size: payload as usize,
                        })
                    },
                }
            }),
    {
        let ring: Ring = Ring::from_ptr(ring_base);
        let type_size: usize = core::mem::size_of::<T>();
        let max_payload: usize = ring.slot_payload_size(region);
        if type_size > max_payload {
            return Err(SynapseError::DataTooLarge { data_len: type_size, slot_size: max_payload });
        }
        Ok(TypedChannel { ring, _marker: PhantomData })
    }

    /// Writes a value, given by its bytes, into the channel.
    pub fn write(&self, region: &mut [u8], value: &[u8]) -> (r: Result<(), SynapseError>)
        requires
            self.ring.wf(old(region)@),
            value@.len() == vstd::layout::size_of::<T>(),
        ensures
            self.ring.wf(final(region)@),
            match r {
                Ok(_) => {
                    &&& self.ring.header(old(region)@).push_fault(value@.len()) is None
                    &&& final(region)@ == self.ring.pushed(old(region)@, value@)
                    &&& self.ring.messages(final(region)@) == self.ring.messages(old(region)@).push(
                        value@.take((value@.len() % 0x1_0000_0000) as int),
                    )
                },
                Err(e) => {
                    &&& self.ring.header(old(region)@).push_fault(value@.len()) == Some(e)
                    &&& final(region)@ == old(region)@
                },
            },
            r is Ok <==> {
                &&& value@.len() <= self.ring.header(old(region)@).slot_size - 4
                &&& self.ring.messages(old(region)@).len() < self.ring.header(
                    old(region)@,
                ).capacity
            },
            r matches Err(e) ==> e == if value@.len() > self.ring.header(old(region)@).slot_size
                - 4 {
                SynapseError::DataTooLarge {
                    data_len: value@.len() as usize,
                    slot_size: (self.ring.header(old(region)@).slot_size - 4) as usize,
                }
            } else {
                SynapseError::RingFull
            },
    {
        self.ring.try_push(region, value)
    }

    /// Reads the bytes of the oldest value from the channel, without waiting.
    ///
    /// A message longer than a value stays where it is; a shorter one is dropped.
    pub fn read(&self, region: &mut [u8]) -> (out: Option<Vec<u8>>)
        requires
            self.ring.wf(old(region)@),
        ensures
            self.ring.wf(final(region)@),
            ({
                let waiting = self.ring.messages(old(region)@);
                let size = vstd::layout::size_of::<T>();
                if waiting.len() == 0 || waiting[0].len() > size {
                    out is None && final(region)@ == old(region)@
                } else {
                    &&& final(region)@ == self.ring.popped(old(region)@)
                    &&& self.ring.messages(final(region)@) == waiting.drop_first()
                    &&& if waiting[0].len() == size {
                        out matches Some(value) && value@ == waiting[0]
                    } else {
                        out is None
                    }
                }
            }),
    {
        let size: usize = core::mem::size_of::<T>();
        let mut buf: Vec<u8> = vec![0u8; size];
        match self.ring.try_pop(region, buf.as_mut_slice()) {
            Ok(len) => {
                if len == size {
                    assert(buf@ =~= self.ring.messages(old(region)@)[0]);
                    Some(buf)
                } else {
                    None
                }
            },
            Err(_) => None,
        }
    }

    /// Number of values in the channel.
    pub fn len(&self, region: &[u8]) -> (n: u64)
        requires
            self.ring.wf(region@),
        ensures
            n == self.ring.messages(region@).len(),
    {
        self.ring.len(region)
    }

    /// Whether the channel is empty.
    pub fn is_empty(&self, region: &[u8]) -> (r: bool)
        requires
            self.ring.wf(region@),
        ensures
            r == (self.ring.messages(region@).len() == 0),
    {
        self.ring.is_empty(region)
    }
}

/// Bytes that the rings of `channels` take, one behind the other.
pub open spec fn rings_bytes(channels: Seq<(u64, u64)>) -> int
    decreases channels.len(),
{
    if channels.len() == 0 {
        0
    } else {
        rings_bytes(channels.drop_last()) + ring::ring_bytes(
            channels.last().0,
            channels.last().1,
        )
    }
}

/// Where the rings start: behind the control block and the registry.
pub open spec fn rings_start() -> int {
    256 + REGISTRY_SIZE
}

/// Where the ring of channel `i` starts.
pub open spec fn channel_offset(channels: Seq<(u64, u64)>, i: int) -> int {
    rings_start() + rings_bytes(channels.take(i))
}

/// Whether the sizes of a set of channels can be computed.
pub open spec fn channels_fit(channels: Seq<(u64, u64)>) -> bool {
    &&& rings_start() + rings_bytes(channels) <= usize::MAX
    &&& forall|i: int|
        0 <= i < channels.len() ==> (#[trigger] channels[i]).0 <= usize::MAX && channels[i].1
            <= usize::MAX
}

/// The total size needed for a set of channels, each given by capacity and slot size.
///
/// Layout: control block (256), registry, then the rings.
pub fn compute_multi_channel_size(channels: &[(u64, u64)]) -> (total: usize)
    requires
        channels_fit(channels@),
    ensures
        total == rings_start() + rings_bytes(channels@),
{
    let n: usize = channels.len();
    let mut total: usize = 256 + REGISTRY_SIZE;
    let mut i: usize = 0;
    while i < n
        invariant
            i <= n,
            n == channels@.len(),
            channels_fit(channels@),
            total == channel_offset(channels@, i as int),
        decreases n - i,
    {
        proof {
            lemma_next_offset(channels@, i as int);
        }
        total = total + RingHeader::region_size(channels[i].0, channels[i].1);
        i = i + 1;
    }
    assert(channels@.take(n as int) =~= channels@);
    total
}

/// Where the ring of each channel starts, from the start of the region.
pub fn compute_channel_offsets(channels: &[(u64, u64)]) -> (offsets: Vec<usize>)
    requires
        channels_fit(channels@),
    ensures
        offsets@.len() == channels@.len(),
        forall|i: int|
            0 <= i < channels@.len() ==> #[trigger] offsets@[i] == channel_offset(channels@, i),
{
    let n: usize = channels.len();
    let mut offset: usize = 256 + REGISTRY_SIZE;
    let mut offsets: Vec<usize> = Vec::with_capacity(n);
    let mut i: usize = 0;
    while i < n
        invariant
            i <= n,
            n == channels@.len(),
            channels_fit(channels@),
            offset == channel_offset(channels@, i as int),
            offsets@.len() == i,
            forall|j: int| 0 <= j < i ==> #[trigger] offsets@[j] == channel_offset(channels@, j),
        decreases n - i,
    {
        proof {
            lemma_next_offset(channels@, i as int);
        }
        offsets.push(offset);
        offset = offset + RingHeader::region_size(channels[i].0, channels[i].1);
        i = i + 1;
    }
    offsets
}

/// One channel's ring ends where the next one's starts, before the end of them all.
proof fn lemma_next_offset(channels: Seq<(u64, u64)>, i: int)
    requires
        0 <= i < channels.len(),
    ensures
        channel_offset(channels, i + 1) == channel_offset(channels, i) + ring::ring_bytes(
            channels[i].0,
            channels[i].1,
        ),
        channel_offset(channels, i) >= rings_start(),
        channel_offset(channels, i + 1) <= rings_start() + rings_bytes(channels),
        ring::ring_bytes(channels[i].0, channels[i].1) >= ring::RING_HEADER_SIZE,
    decreases channels.len() - i,
{
    let (capacity, slot_size) = channels[i];
    assert(0 <= capacity * slot_size) by (nonlinear_arith)
        requires
            0 <= capacity,
            0 <= slot_size,
    ;
    assert(channels.take(i + 1).drop_last() =~= channels.take(i));
    assert(channels.take(i + 1).last() == channels[i]);
    lemma_rings_bytes_positive(channels.take(i));
    if i + 1 < channels.len() {
        lemma_next_offset(channels, i + 1);
    } else {
        assert(channels.take(i + 1) =~= channels);
    }
}

proof fn lemma_rings_bytes_positive(channels: Seq<(u64, u64)>)
    ensures
        rings_bytes(channels) >= 0,
    decreases channels.len(),
{
    if channels.len() > 0 {
        lemma_rings_bytes_positive(channels.drop_last());
        let (capacity, slot_size) = channels.last();
        assert(0 <= capacity * slot_size) by (nonlinear_arith)
            requires
                0 <= capacity,
                0 <= slot_size,
        ;
    }
}

/// The rings of different channels do not overlap; all lie behind the control block and the
/// registry and before the end of the region.
pub proof fn law_rings_disjoint(channels: Seq<(u64, u64)>, i: int, j: int)
    requires
        0 <= i < j < channels.len(),
    ensures
        rings_start() <= channel_offset(channels, i),
        channel_offset(channels, i) + ring::ring_bytes(channels[i].0, channels[i].1)
            <= channel_offset(channels, j),
        channel_offset(channels, j) + ring::ring_bytes(channels[j].0, channels[j].1)
            <= rings_start() + rings_bytes(channels),
    decreases j - i,
{
    lemma_next_offset(channels, i);
    lemma_next_offset(channels, j);
    if i + 1 < j {
        law_rings_disjoint(channels, i + 1, j);
    }
}

/// A value that is written to an empty channel is the value that is read from it, and leaves
/// the channel empty.
pub proof fn law_value_roundtrip<T: Copy>(channel: TypedChannel<T>, mem: Seq<u8>, value: Seq<u8>)
    requires
        channel.ring.wf(mem),
        channel.ring.messages(mem).len() == 0,
        value.len() == vstd::layout::size_of::<T>(),
        value.len() <= channel.ring.header(mem).slot_size - 4,
        value.len() < 0x1_0000_0000,
    ensures
        ({
            let out = channel.ring.pushed(mem, value);
            &&& channel.ring.wf(out)
            &&& channel.ring.messages(out) == seq![value]
            &&& channel.ring.messages(channel.ring.popped(out)).len() == 0
        }),
{
    let h = channel.ring.header(mem);
    ring::lemma_shape(h.capacity, h.slot_size);
    ring::lemma_push(channel.ring, mem, value);
    ring::law_push_then_pop(channel.ring, mem, value);
}

/// A search finds a channel of that name, and the first of them; it finds none exactly if no
/// channel has the name.
pub proof fn law_find(channels: Seq<ChannelInfo>, name: Seq<char>)
    ensures
        match find(channels, name) {
            Some(found) => exists|i: int|
                {
                    &&& 0 <= i < channels.len()
                    &&& #[trigger] channels[i] == found
                    &&& found.name == name
                    &&& forall|j: int| 0 <= j < i ==> (#[trigger] channels[j]).name != name
                },
            None => forall|i: int|
                0 <= i < channels.len() ==> (#[trigger] channels[i]).name != name,
        },
    decreases channels.len(),
{
    if channels.len() > 0 && channels[0].name != name {
        let rest = channels.drop_first();
        law_find(rest, name);
        match find(rest, name) {
            Some(found) => {
                let i = choose|i: int|
                    {
                        &&& 0 <= i < rest.len()
                        &&& #[trigger] rest[i] == found
                        &&& found.name == name
                        &&& forall|j: int| 0 <= j < i ==> (#[trigger] rest[j]).name != name
                    };
                assert(channels[i + 1] == found);
                assert forall|j: int| 0 <= j < i + 1 implies (#[trigger] channels[j]).name
                    != name by {
                    if j > 0 {
                        assert(rest[j - 1] == channels[j]);
                    }
                }
            },
            None => {
                assert forall|i: int| 0 <= i < channels.len() implies (#[trigger] channels[i]).name
                    != name by {
                    if i > 0 {
                        assert(rest[i - 1] == channels[i]);
                    }
                }
            },
        }
    }
}

/// A channel can be registered exactly if there are fewer than 64, its name has at most 47 bytes,
/// and no channel has that name. What is said otherwise names the first of these that fails.
pub proof fn law_register_outcome(registry: ChannelRegistry, mem: Seq<u8>, name: Seq<char>)
    ensures
        ({
            let count = registry.count_in(mem);
            let len = vstd::utf8::encode_utf8(name).len();
            let taken = exists|i: int|
                0 <= i < count && (#[trigger] registry.channels_in(mem)[i]).name == name;
            registry.register_fault(mem, name) == if count >= 64 {
                Some("channel registry full"@)
            } else if len > 47 {
                Some("channel name too long: "@ + text::decimal(len) + " (max 47)"@)
            } else if taken {
                Some("duplicate channel name: "@ + name)
            } else {
                None
            }
        }),
{
    law_find(registry.channels_in(mem), name);
}

/// Where a registry has its number of channels and their entries, and what an entry holds: the
/// name before its first zero byte, offset, capacity and slot size.
pub proof fn law_registry_places(registry: ChannelRegistry, mem: Seq<u8>, i: int)
    requires
        registry.wf(mem),
        0 <= i < registry.count_in(mem),
    ensures
        ({
            let at = registry.base + 8 + 72 * i;
            let field = mem.subrange(at, at + 48);
            let name = field.take(text::nul_at(field) as int);
            let channel = registry.channels_in(mem)[i];
            &&& registry.channels_in(mem).len() == bytes::u32_at(mem, registry.base as int)
            &&& channel.offset == bytes::u64_at(mem, at + 48) as usize
            &&& channel.capacity == bytes::u64_at(mem, at + 56)
            &&& channel.slot_size == bytes::u64_at(mem, at + 64)
            &&& vstd::utf8::valid_utf8(name) ==> vstd::utf8::encode_utf8(channel.name) == name
            &&& !vstd::utf8::valid_utf8(name) ==> channel.name.len() == 0
        }),
{
    let at = registry.base + 8 + 72 * i;
    let field = mem.subrange(at, at + 48);
    let name = field.take(text::nul_at(field) as int);
    if vstd::utf8::valid_utf8(name) {
        vstd::utf8::decode_utf8_encode_utf8(name);
    }
}

/// The rings of a set of channels lie without gaps behind 256 bytes for the control block and 4616
/// for the registry, each with 192 bytes and its slots.
pub proof fn law_ring_offsets(channels: Seq<(u64, u64)>, i: int)
    requires
        0 <= i < channels.len(),
    ensures
        channel_offset(channels, 0) == 256 + 4616,
        channel_offset(channels, i + 1) == channel_offset(channels, i) + 192 + channels[i].0
            * channels[i].1,
        rings_start() + rings_bytes(channels) == channel_offset(channels, channels.len() as int),
{
    lemma_next_offset(channels, i);
    assert(channels.take(0) =~= Seq::<(u64, u64)>::empty());
    assert(channels.take(channels.len() as int) =~= channels);
}

} // verus!
