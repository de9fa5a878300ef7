//! One producer and one consumer working on a ring at the same time.
//!
//! The producer and the consumer share nothing but the region. Each byte they write or read is
//! a step of its own, steps of the two sides come in any order, and each side may see the other
//! side's counter as it was some time ago. What is proved here holds for every such run.
use vstd::prelude::*;
use crate::bytes;
use crate::ring;
use crate::ring::{Ring, RingHeader};

verus! {

/// What the producer is doing.
pub enum Producer {
    /// Nothing.
    Idle,
    /// Filling a slot with `data`, of whose image `done` bytes are written.
    Writing { data: Seq<u8>, done: nat },
}

/// What the consumer is doing.
pub enum Consumer {
    /// Nothing.
    Idle,
    /// Copying a message of `len` bytes out of its slot.
    Reading { len: nat, copied: Seq<u8> },
}

/// A ring in use, with the history of what went in and what came out.
pub struct Spsc {
    /// The region.
    pub mem: Seq<u8>,
    /// Messages published so far.
    pub sent: Seq<Seq<u8>>,
    /// Messages handed to the reader so far.
    pub received: Seq<Seq<u8>>,
    /// How many pops the producer has seen.
    pub seen_pops: nat,
    /// How many pushes the consumer has seen.
    pub seen_pushes: nat,
    pub producer: Producer,
    pub consumer: Consumer,
}

/// A step of one of the two sides.
pub enum Event {
    /// The producer wants to push `data` and sees the tail as it was after `seen` pops.
    StartPush { data: Seq<u8>, seen: nat },
    /// The producer writes one byte of its slot.
    WriteByte,
    /// The producer publishes its slot by storing the head.
    Publish,
    /// The consumer wants to pop into `room` bytes and sees the head as it was after `seen`
    /// pushes.
    StartPop { room: nat, seen: nat },
    /// The consumer copies one byte of the message.
    ReadByte,
    /// The consumer gives the slot back by storing the tail.
    Release,
}

/// A ring that nothing has gone through yet.
pub open spec fn fresh(ring: Ring, s: Spsc) -> bool {
    &&& ring.wf(s.mem)
    &&& ring.header(s.mem).head == 0
    &&& ring.header(s.mem).tail == 0
    &&& s.sent == Seq::<Seq<u8>>::empty()
    &&& s.received == Seq::<Seq<u8>>::empty()
    &&& s.seen_pops == 0
    &&& s.seen_pushes == 0
    &&& s.producer is Idle
    &&& s.consumer is Idle
}

/// The state after an event; an event that cannot happen changes nothing.
pub open spec fn next(ring: Ring, s: Spsc, e: Event) -> Spsc {
    let h = ring.header(s.mem);
    match e {
        Event::StartPush { data, seen } => {
            let loaded = RingHeader { tail: (seen % (ring::counter_span() as nat)) as u64, ..h };
            if s.producer is Idle && s.seen_pops <= seen <= s.received.len() && data.len()
                <= u32::MAX {
                if loaded.push_fault(data.len()) is None {
                    Spsc { seen_pops: seen, producer: Producer::Writing { data, done: 0 }, ..s }
                } else {
                    Spsc { seen_pops: seen, ..s }
                }
            } else {
                s
            }
        },
        Event::WriteByte => match s.producer {
            Producer::Writing { data, done } if done < ring::slot_image(data).len() => Spsc {
                mem: s.mem.update(
                    ring.slot(s.mem, h.head as int) + done,
                    ring::slot_image(data)[done as int],
                ),
                producer: Producer::Writing { data, done: done + 1 },
                ..s
            },
            _ => s,
        },
        Event::Publish => match s.producer {
            Producer::Writing { data, done } if done == ring::slot_image(data).len() => Spsc {
                mem: bytes::with_u64(
                    s.mem,
                    ring.base as int,
                    ((h.head + 1) % ring::counter_span()) as u64,
                ),
                sent: s.sent.push(data),
                producer: Producer::Idle,
                ..s
            },
            _ => s,
        },
        Event::StartPop { room, seen } => {
            let loaded = RingHeader { head: (seen % (ring::counter_span() as nat)) as u64, ..h };
            let len = ring.message_len(s.mem, h.tail as int) as nat;
            if s.consumer is Idle && s.seen_pushes <= seen <= s.sent.len() {
                if loaded.head != loaded.tail && len <= room {
                    Spsc {
                        seen_pushes: seen,
                        consumer: Consumer::Reading { len, copied: Seq::empty() },
                        ..s
                    }
                } else {
                    Spsc { seen_pushes: seen, ..s }
                }
            } else {
                s
            }
        },
        Event::ReadByte => match s.consumer {
            Consumer::Reading { len, copied } if copied.len() < len => Spsc {
                consumer: Consumer::Reading {
                    len,
                    copied: copied.push(s.mem[ring.slot(s.mem, h.tail as int) + 4 + copied.len()]),
                },
                ..s
            },
            _ => s,
        },
        Event::Release => match s.consumer {
            Consumer::Reading { len, copied } if copied.len() == len => Spsc {
                mem: bytes::with_u64(
                    s.mem,
                    ring.base + 64,
                    ((h.tail + 1) % ring::counter_span()) as u64,
                ),
                received: s.received.push(copied),
                consumer: Consumer::Idle,
                ..s
            },
            _ => s,
        },
    }
}

/// The state after a run of events.
pub open spec fn run(ring: Ring, s: Spsc, events: Seq<Event>) -> Spsc
    decreases events.len(),
{
    if events.len() == 0 {
        s
    } else {
        next(ring, run(ring, s, events.drop_last()), events.last())
    }
}

/// Whether the slot of counter value `c` holds `data`.
spec fn holds(ring: Ring, mem: Seq<u8>, c: int, data: Seq<u8>) -> bool {
    &&& ring.message_len(mem, c) == data.len()
    &&& ring.message(mem, c) == data
    &&& data.len() <= ring.header(mem).slot_size - 4
}

/// What every reachable state keeps.
spec fn sound(ring: Ring, s: Spsc) -> bool {
    let h = ring.header(s.mem);
    let pushes = s.sent.len() as int;
    let pops = s.received.len() as int;
    &&& ring.base + ring::RING_HEADER_SIZE <= s.mem.len()
    &&& ring::shape_ok(h.capacity, h.slot_size)
    &&& h.mask == h.capacity - 1
    &&& ring.end(s.mem) <= s.mem.len()
    &&& h.head == pushes % ring::counter_span()
    &&& h.tail == pops % ring::counter_span()
    &&& s.seen_pops <= pops
    &&& pushes <= s.seen_pops + h.capacity
    &&& pops <= s.seen_pushes <= pushes
    &&& s.received == s.sent.take(pops)
    &&& forall|c: int| pops <= c < pushes ==> #[trigger] holds(ring, s.mem, c, s.sent[c])
    &&& match s.producer {
        Producer::Idle => true,
        Producer::Writing { data, done } => {
            &&& data.len() <= h.slot_size - 4
            &&& data.len() <= u32::MAX
            &&& pushes < s.seen_pops + h.capacity
            &&& done <= ring::slot_image(data).len()
            &&& forall|i: int|
                0 <= i < done ==> s.mem[ring.slot(s.mem, pushes) + i]
                    == #[trigger] ring::slot_image(data)[i]
        },
    }
    &&& match s.consumer {
        Consumer::Idle => true,
        Consumer::Reading { len, copied } => {
            &&& pops < s.seen_pushes
            &&& len == s.sent[pops].len()
            &&& copied.len() <= len
            &&& copied == s.sent[pops].take(copied.len() as int)
        },
    }
}

/// Counter values and their wrapped forms have the same slot.
proof fn lemma_slots(ring: Ring, s: Spsc)
    requires
        sound(ring, s),
    ensures
        ring.slot(s.mem, ring.header(s.mem).head as int) == ring.slot(s.mem, s.sent.len() as int),
        ring.slot(s.mem, ring.header(s.mem).tail as int) == ring.slot(
            s.mem,
            s.received.len() as int,
        ),
        ring.header(s.mem).capacity >= 1,
{
    let h = ring.header(s.mem);
    ring::lemma_shape(h.capacity, h.slot_size);
    ring::lemma_wrap(s.sent.len() as int, h.capacity);
    ring::lemma_wrap(s.received.len() as int, h.capacity);
}

/// A slot keeps what it holds when its bytes and the ring's shape stay.
proof fn lemma_holds_same(ring: Ring, a: Seq<u8>, b: Seq<u8>, c: int, data: Seq<u8>)
    requires
        holds(ring, a, c, data),
        ring::shape_ok(ring.header(a).capacity, ring.header(a).slot_size),
        ring.end(a) <= a.len(),
        ring.header(b).capacity == ring.header(a).capacity,
        ring.header(b).slot_size == ring.header(a).slot_size,
        bytes::same_range(a, b, ring.slot(a, c), ring.slot(a, c) + ring.header(a).slot_size),
    ensures
        holds(ring, b, c, data),
{
    let at = ring.slot(a, c);
    let size = ring.header(a).slot_size as int;
    ring::lemma_slot_bounds(ring.header(a), c);
    bytes::lemma_same_u32(a, b, at, at + size, at);
    assert(ring.message(b, c) =~= ring.message(a, c));
}

/// Storing one of the two counters leaves the other, the shape and the slots as they were.
proof fn lemma_store(ring: Ring, mem: Seq<u8>, at: int, v: u64)
    requires
        ring.base + ring::RING_HEADER_SIZE <= mem.len(),
        ring::shape_ok(ring.header(mem).capacity, ring.header(mem).slot_size),
        at == ring.base || at == ring.base + 64,
    ensures
        ({
            let out = bytes::with_u64(mem, at, v);
            &&& out.len() == mem.len()
            &&& ring.header(out) == if at == ring.base {
                RingHeader { head: v, ..ring.header(mem) }
            } else {
                RingHeader { tail: v, ..ring.header(mem) }
            }
            &&& bytes::same_range(mem, out, ring.base + 192, mem.len() as int)
        }),
{
    let out = bytes::with_u64(mem, at, v);
    let base = ring.base as int;
    bytes::lemma_le_bytes_len(v as nat, 8);
    bytes::lemma_u64_same(mem, at, v);
    if at == base {
        bytes::lemma_same_u64(mem, out, base + 64, base + 192, base + 64);
    } else {
        bytes::lemma_same_u64(mem, out, base, base + 64, base);
    }
    bytes::lemma_same_u64(mem, out, base + 72, base + 192, base + 128);
    bytes::lemma_same_u64(mem, out, base + 72, base + 192, base + 136);
    bytes::lemma_same_u64(mem, out, base + 72, base + 192, base + 144);
}

proof fn lemma_start_push(ring: Ring, s: Spsc, data: Seq<u8>, seen: nat)
    requires
        sound(ring, s),
    ensures
        sound(ring, next(ring, s, Event::StartPush { data, seen })),
{
    lemma_slots(ring, s);
    let h = ring.header(s.mem);
    let loaded = RingHeader { tail: (seen % (ring::counter_span() as nat)) as u64, ..h };
    if s.seen_pops <= seen <= s.received.len() {
        let pushes = s.sent.len() as int;
        assert(0 <= pushes - seen <= h.capacity < ring::counter_span());
        lemma_difference(pushes, seen as int);
        assert(loaded.count() == pushes - seen);
    }
}

/// The difference of two wrapped counters is the difference of the counters.
proof fn lemma_difference(a: int, b: int)
    requires
        0 <= a - b < ring::counter_span(),
    ensures
        (a % ring::counter_span() - b % ring::counter_span()) % ring::counter_span() == a - b,
{
    vstd::arithmetic::div_mod::lemma_sub_mod_noop(a, b, ring::counter_span());
    vstd::arithmetic::div_mod::lemma_small_mod((a - b) as nat, ring::counter_span() as nat);
}

proof fn lemma_write_byte(ring: Ring, s: Spsc)
    requires
        sound(ring, s),
    ensures
        sound(ring, next(ring, s, Event::WriteByte)),
{
    lemma_slots(ring, s);
    let h = ring.header(s.mem);
    let pushes = s.sent.len() as int;
    let pops = s.received.len() as int;
    if let Producer::Writing { data, done } = s.producer {
        bytes::lemma_le_bytes_len(data.len() % 0x1_0000_0000, 4);
        if done < ring::slot_image(data).len() {
            let out = next(ring, s, Event::WriteByte);
            let at = ring.slot(s.mem, pushes) + done;
            ring::lemma_slot_bounds(h, pushes);
            let base = ring.base as int;
            assert(bytes::same_range(s.mem, out.mem, base, base + 192));
            bytes::lemma_same_u64(s.mem, out.mem, base, base + 192, base);
            bytes::lemma_same_u64(s.mem, out.mem, base, base + 192, base + 64);
            bytes::lemma_same_u64(s.mem, out.mem, base, base + 192, base + 128);
            bytes::lemma_same_u64(s.mem, out.mem, base, base + 192, base + 136);
            bytes::lemma_same_u64(s.mem, out.mem, base, base + 192, base + 144);
            assert(ring.header(out.mem) == h);
            assert forall|c: int| pops <= c < pushes implies #[trigger] holds(
                ring,
                out.mem,
                c,
                s.sent[c],
            ) by {
                assert(holds(ring, s.mem, c, s.sent[c]));
                ring::lemma_slot_bounds(h, c);
                ring::lemma_disjoint(h, c, pushes);
                lemma_holds_same(ring, s.mem, out.mem, c, s.sent[c]);
            }
        }
    }
}

proof fn lemma_publish(ring: Ring, s: Spsc)
    requires
        sound(ring, s),
    ensures
        sound(ring, next(ring, s, Event::Publish)),
{
    lemma_slots(ring, s);
    let h = ring.header(s.mem);
    let pushes = s.sent.len() as int;
    let pops = s.received.len() as int;
    if let Producer::Writing { data, done } = s.producer {
        if done == ring::slot_image(data).len() {
            let out = next(ring, s, Event::Publish);
            let v = ((h.head + 1) % ring::counter_span()) as u64;
            lemma_store(ring, s.mem, ring.base as int, v);
            vstd::arithmetic::div_mod::lemma_add_mod_noop(pushes, 1, ring::counter_span());
            assert((pushes + 1) % ring::counter_span() == v) by {
                vstd::arithmetic::div_mod::lemma_small_mod(1, ring::counter_span() as nat);
            }
            assert forall|c: int| pops <= c < pushes + 1 implies #[trigger] holds(
                ring,
                out.mem,
                c,
                out.sent[c],
            ) by {
                ring::lemma_slot_bounds(h, c);
                if c < pushes {
                    assert(holds(ring, s.mem, c, s.sent[c]));
                } else {
                    lemma_written(ring, s.mem, pushes, data);
                }
                lemma_holds_same(ring, s.mem, out.mem, c, out.sent[c]);
            }
            assert(out.received =~= out.sent.take(pops));
        }
    }
}

/// A slot whose bytes are the image of a message holds the message.
proof fn lemma_written(ring: Ring, mem: Seq<u8>, c: int, data: Seq<u8>)
    requires
        ring::shape_ok(ring.header(mem).capacity, ring.header(mem).slot_size),
        ring.end(mem) <= mem.len(),
        data.len() <= u32::MAX,
        data.len() <= ring.header(mem).slot_size - 4,
        forall|i: int|
            0 <= i < ring::slot_image(data).len() ==> mem[ring.slot(mem, c) + i] == #[trigger] ring::slot_image(data)[i],
    ensures
        holds(ring, mem, c, data),
{
    let at = ring.slot(mem, c);
    ring::lemma_slot_bounds(ring.header(mem), c);
    bytes::lemma_pow256_values();
    bytes::lemma_le_roundtrip(data.len(), 4);
    assert forall|i: int| 0 <= i < 4 implies mem[at + i] == bytes::le_bytes(data.len(), 4)[i] by {
        assert(ring::slot_image(data)[i] == bytes::le_bytes(data.len(), 4)[i]);
    }
    assert(mem.subrange(at, at + 4) =~= bytes::le_bytes(data.len(), 4));
    assert forall|i: int| 0 <= i < data.len() implies mem[at + 4 + i] == data[i] by {
        assert(ring::slot_image(data)[4 + i] == data[i]);
    }
    assert(ring.message(mem, c) =~= data);
}

proof fn lemma_start_pop(ring: Ring, s: Spsc, room: nat, seen: nat)
    requires
        sound(ring, s),
    ensures
        sound(ring, next(ring, s, Event::StartPop { room, seen })),
{
    lemma_slots(ring, s);
    let h = ring.header(s.mem);
    let pops = s.received.len() as int;
    let pushes = s.sent.len() as int;
    if s.seen_pushes <= seen <= pushes {
        lemma_difference(seen as int, pops);
        if pops < pushes {
            assert(holds(ring, s.mem, pops, s.sent[pops]));
            assert(s.sent[pops].take(0) =~= Seq::<u8>::empty());
        }
    }
}

proof fn lemma_read_byte(ring: Ring, s: Spsc)
    requires
        sound(ring, s),
    ensures
        sound(ring, next(ring, s, Event::ReadByte)),
{
    lemma_slots(ring, s);
    let pops = s.received.len() as int;
    if let Consumer::Reading { len, copied } = s.consumer {
        if copied.len() < len {
            let at = ring.slot(s.mem, pops);
            ring::lemma_slot_bounds(ring.header(s.mem), pops);
            assert(holds(ring, s.mem, pops, s.sent[pops]));
            let k = copied.len() as int;
            assert(ring.message(s.mem, pops)[k] == s.mem[at + 4 + k]);
            assert(copied.push(s.mem[at + 4 + k]) =~= s.sent[pops].take(k + 1));
        }
    }
}

proof fn lemma_release(ring: Ring, s: Spsc)
    requires
        sound(ring, s),
    ensures
        sound(ring, next(ring, s, Event::Release)),
{
    lemma_slots(ring, s);
    let h = ring.header(s.mem);
    let pops = s.received.len() as int;
    let pushes = s.sent.len() as int;
    if let Consumer::Reading { len, copied } = s.consumer {
        if copied.len() == len {
            let out = next(ring, s, Event::Release);
            let v = ((h.tail + 1) % ring::counter_span()) as u64;
            lemma_store(ring, s.mem, ring.base + 64, v);
            vstd::arithmetic::div_mod::lemma_add_mod_noop(pops, 1, ring::counter_span());
            assert((pops + 1) % ring::counter_span() == v) by {
                vstd::arithmetic::div_mod::lemma_small_mod(1, ring::counter_span() as nat);
            }
            assert(copied =~= s.sent[pops]);
            assert(out.received =~= s.sent.take(pops + 1));
            assert forall|c: int| pops + 1 <= c < pushes implies #[trigger] holds(
                ring,
                out.mem,
                c,
                s.sent[c],
            ) by {
                assert(holds(ring, s.mem, c, s.sent[c]));
                ring::lemma_slot_bounds(h, c);
                lemma_holds_same(ring, s.mem, out.mem, c, s.sent[c]);
            }
            if let Producer::Writing { data, done } = s.producer {
                bytes::lemma_le_bytes_len(data.len() % 0x1_0000_0000, 4);
                ring::lemma_slot_bounds(h, pushes);
                assert(ring.slot(out.mem, pushes) == ring.slot(s.mem, pushes));
                assert forall|i: int| 0 <= i < done implies out.mem[ring.slot(out.mem, pushes) + i]
                    == #[trigger] ring::slot_image(data)[i] by {
                    assert(s.mem[ring.slot(s.mem, pushes) + i] == ring::slot_image(data)[i]);
                }
            }
        }
    }
}

proof fn lemma_run(ring: Ring, s: Spsc, events: Seq<Event>)
    requires
        fresh(ring, s),
    ensures
        sound(ring, run(ring, s, events)),
    decreases events.len(),
{
    if events.len() == 0 {
        assert(s.received =~= s.sent.take(0));
    } else {
        lemma_run(ring, s, events.drop_last());
        let before = run(ring, s, events.drop_last());
        match events.last() {
            Event::StartPush { data, seen } => lemma_start_push(ring, before, data, seen),
            Event::WriteByte => lemma_write_byte(ring, before),
            Event::Publish => lemma_publish(ring, before),
            Event::StartPop { room, seen } => lemma_start_pop(ring, before, room, seen),
            Event::ReadByte => lemma_read_byte(ring, before),
            Event::Release => lemma_release(ring, before),
        }
    }
}

/// However the steps of one producer and one consumer interleave, no message is lost, torn,
/// repeated or reordered: what came out, followed by what is waiting in the ring, is what went
/// in. And the ring stays well formed.
pub proof fn law_spsc(ring: Ring, s: Spsc, events: Seq<Event>)
    requires
        fresh(ring, s),
    ensures
        ({
            let end = run(ring, s, events);
            &&& ring.wf(end.mem)
            &&& end.sent == end.received + ring.messages(end.mem)
        }),
{
    lemma_run(ring, s, events);
    let end = run(ring, s, events);
    lemma_slots(ring, end);
    let h = ring.header(end.mem);
    let pops = end.received.len() as int;
    let pushes = end.sent.len() as int;
    lemma_difference(pushes, pops);
    assert(h.count() == pushes - pops);
    assert forall|i: int| 0 <= i < h.count() implies {
        &&& #[trigger] ring.message_len(end.mem, h.tail + i) <= h.slot_size - 4
        &&& ring.message(end.mem, h.tail + i) == end.sent[pops + i]
    } by {
        assert(holds(ring, end.mem, pops + i, end.sent[pops + i]));
        ring::lemma_wrap(pops, h.capacity);
        ring::lemma_same_slot(h.tail as int, pops, i, h.capacity as int);
        assert(ring.slot(end.mem, h.tail + i) == ring.slot(end.mem, pops + i));
    }
    assert(end.sent =~= end.received + ring.messages(end.mem));
}

/// The steps of a whole push, by a producer that sees the tail as it is after `seen` pops.
pub open spec fn push_events(data: Seq<u8>, seen: nat) -> Seq<Event> {
    seq![Event::StartPush { data, seen }] + Seq::new(ring::slot_image(data).len(), |i: int| Event::WriteByte)
        + seq![Event::Publish]
}

/// The steps of a whole pop of a message of `len` bytes, by a consumer that sees the head as it
/// is after `seen` pushes.
pub open spec fn pop_events(len: nat, seen: nat) -> Seq<Event> {
    seq![Event::StartPop { room: len, seen }] + Seq::new(len, |i: int| Event::ReadByte) + seq![
        Event::Release,
    ]
}

proof fn lemma_run_split(ring: Ring, s: Spsc, a: Seq<Event>, b: Seq<Event>)
    ensures
        run(ring, s, a + b) == run(ring, run(ring, s, a), b),
    decreases b.len(),
{
    if b.len() == 0 {
        assert(a + b =~= a);
    } else {
        lemma_run_split(ring, s, a, b.drop_last());
        assert((a + b).drop_last() =~= a + b.drop_last());
        assert((a + b).last() == b.last());
    }
}

proof fn lemma_run_one(ring: Ring, s: Spsc, e: Event)
    ensures
        run(ring, s, seq![e]) == next(ring, s, e),
{
    assert(seq![e].drop_last() =~= Seq::<Event>::empty());
    assert(run(ring, s, Seq::<Event>::empty()) == s);
}

/// A run of three parts, of which the first and the last are single steps.
proof fn lemma_run_three(ring: Ring, s: Spsc, first: Event, middle: Seq<Event>, last: Event)
    ensures
        run(ring, s, seq![first] + middle + seq![last]) == next(
            ring,
            run(ring, next(ring, s, first), middle),
            last,
        ),
{
    lemma_run_split(ring, s, seq![first] + middle, seq![last]);
    lemma_run_split(ring, s, seq![first], middle);
    lemma_run_one(ring, s, first);
    lemma_run_one(ring, run(ring, next(ring, s, first), middle), last);
}

/// Bytes written behind the header leave the header as it is.
proof fn lemma_header_stays(ring: Ring, mem: Seq<u8>, at: int, data: Seq<u8>)
    requires
        ring.base + ring::RING_HEADER_SIZE <= at,
        at + data.len() <= mem.len(),
    ensures
        ring.header(bytes::splice(mem, at, data)) == ring.header(mem),
{
    let out = bytes::splice(mem, at, data);
    let base = ring.base as int;
    bytes::lemma_same_u64(mem, out, base, base + 192, base);
    bytes::lemma_same_u64(mem, out, base, base + 192, base + 64);
    bytes::lemma_same_u64(mem, out, base, base + 192, base + 128);
    bytes::lemma_same_u64(mem, out, base, base + 192, base + 136);
    bytes::lemma_same_u64(mem, out, base, base + 192, base + 144);
}

/// The first `k` bytes of a slot, written one by one.
proof fn lemma_write_bytes(ring: Ring, s: Spsc, data: Seq<u8>, k: nat)
    requires
        sound(ring, s),
        s.producer == (Producer::Writing { data, done: 0 }),
        k <= ring::slot_image(data).len(),
    ensures
        ({
            let slot = ring.slot(s.mem, ring.header(s.mem).head as int);
            run(ring, s, Seq::new(k, |i: int| Event::WriteByte)) == (Spsc {
                mem: bytes::splice(s.mem, slot, ring::slot_image(data).take(k as int)),
                producer: Producer::Writing { data, done: k },
                ..s
            })
        }),
    decreases k,
{
    let h = ring.header(s.mem);
    let slot = ring.slot(s.mem, h.head as int);
    let events = Seq::new(k, |i: int| Event::WriteByte);
    bytes::lemma_le_bytes_len(data.len() % 0x1_0000_0000, 4);
    ring::lemma_slot_bounds(h, h.head as int);
    if k == 0 {
        assert(s.mem =~= bytes::splice(s.mem, slot, ring::slot_image(data).take(0)));
    } else {
        let j = (k - 1) as nat;
        lemma_write_bytes(ring, s, data, j);
        assert(events.drop_last() =~= Seq::new(j, |i: int| Event::WriteByte));
        let before = bytes::splice(s.mem, slot, ring::slot_image(data).take(j as int));
        lemma_header_stays(ring, s.mem, slot, ring::slot_image(data).take(j as int));
        assert(before.update(slot + j, ring::slot_image(data)[j as int]) =~= bytes::splice(
            s.mem,
            slot,
            ring::slot_image(data).take(k as int),
        ));
    }
}

/// A push that nothing interrupts does to the region what `try_push` does.
pub proof fn law_push_is_a_run(ring: Ring, start: Spsc, events: Seq<Event>, data: Seq<u8>)
    requires
        fresh(ring, start),
        ({
            let s = run(ring, start, events);
            &&& s.producer is Idle
            &&& data.len() <= u32::MAX
            &&& ring.header(s.mem).push_fault(data.len()) is None
        }),
    ensures
        ({
            let s = run(ring, start, events);
            run(ring, s, push_events(data, s.received.len())) == (Spsc {
                mem: ring.pushed(s.mem, data),
                sent: s.sent.push(data),
                seen_pops: s.received.len(),
                ..s
            })
        }),
{
    lemma_run(ring, start, events);
    lemma_push_run(ring, run(ring, start, events), data);
}

proof fn lemma_push_run(ring: Ring, s: Spsc, data: Seq<u8>)
    requires
        sound(ring, s),
        s.producer is Idle,
        data.len() <= u32::MAX,
        ring.header(s.mem).push_fault(data.len()) is None,
    ensures
        run(ring, s, push_events(data, s.received.len())) == (Spsc {
            mem: ring.pushed(s.mem, data),
            sent: s.sent.push(data),
            seen_pops: s.received.len(),
            ..s
        }),
{
    let h = ring.header(s.mem);
    let seen = s.received.len();
    let first = Event::StartPush { data, seen };
    let writes = Seq::new(ring::slot_image(data).len(), |i: int| Event::WriteByte);
    lemma_run_three(ring, s, first, writes, Event::Publish);
    lemma_start_push(ring, s, data, seen);
    let s1 = next(ring, s, first);
    assert(RingHeader { tail: (seen % (ring::counter_span() as nat)) as u64, ..h } == h);
    assert(s1 == (Spsc { seen_pops: seen, producer: Producer::Writing { data, done: 0 }, ..s }));
    lemma_write_bytes(ring, s1, data, ring::slot_image(data).len());
    assert(ring::slot_image(data).take(ring::slot_image(data).len() as int) =~= ring::slot_image(data));
    lemma_image(ring, s.mem, data);
    let slot = ring.slot(s.mem, h.head as int);
    let m2 = bytes::splice(s.mem, slot, ring::slot_image(data));
    let s2 = Spsc {
        mem: m2,
        producer: Producer::Writing { data, done: ring::slot_image(data).len() },
        ..s1
    };
    assert(run(ring, s1, writes) == s2);
    assert(next(ring, s2, Event::Publish).mem == ring.pushed(s.mem, data));
}

/// A filled slot is the image of its message.
proof fn lemma_image(ring: Ring, mem: Seq<u8>, data: Seq<u8>)
    requires
        ring::shape_ok(ring.header(mem).capacity, ring.header(mem).slot_size),
        ring.end(mem) <= mem.len(),
        data.len() <= ring.header(mem).slot_size - 4,
        data.len() <= u32::MAX,
    ensures
        ({
            let h = ring.header(mem);
            let slot = ring.slot(mem, h.head as int);
            let m2 = bytes::splice(mem, slot, ring::slot_image(data));
            &&& ring.header(m2) == h
            &&& ring.pushed(mem, data) == bytes::with_u64(
                m2,
                ring.base as int,
                ((h.head + 1) % ring::counter_span()) as u64,
            )
        }),
{
    let h = ring.header(mem);
    let slot = ring.slot(mem, h.head as int);
    bytes::lemma_le_bytes_len(data.len() % 0x1_0000_0000, 4);
    ring::lemma_slot_bounds(h, h.head as int);
    lemma_header_stays(ring, mem, slot, ring::slot_image(data));
    let n = (data.len() % 0x1_0000_0000) as u32;
    assert(n == data.len());
    assert(bytes::splice(bytes::with_u32(mem, slot, n), slot + 4, data) =~= bytes::splice(
        mem,
        slot,
        ring::slot_image(data),
    ));
}

/// The first `k` bytes of a message, copied one by one.
proof fn lemma_read_bytes(ring: Ring, s: Spsc, len: nat, k: nat)
    requires
        sound(ring, s),
        s.consumer == (Consumer::Reading { len, copied: Seq::empty() }),
        k <= len,
    ensures
        run(ring, s, Seq::new(k, |i: int| Event::ReadByte)) == (Spsc {
            consumer: Consumer::Reading {
                len,
                copied: ring.message(s.mem, ring.header(s.mem).tail as int).take(k as int),
            },
            ..s
        }),
    decreases k,
{
    lemma_slots(ring, s);
    let tail = ring.header(s.mem).tail as int;
    let pops = s.received.len() as int;
    assert(holds(ring, s.mem, pops, s.sent[pops]));
    let message = ring.message(s.mem, tail);
    let events = Seq::new(k, |i: int| Event::ReadByte);
    ring::lemma_slot_bounds(ring.header(s.mem), tail);
    assert(message.len() == len);
    if k == 0 {
        assert(message.take(0) =~= Seq::<u8>::empty());
    } else {
        let j = (k - 1) as nat;
        lemma_read_bytes(ring, s, len, j);
        assert(events.drop_last() =~= Seq::new(j, |i: int| Event::ReadByte));
        assert(message.take(j as int).push(message[j as int]) =~= message.take(k as int));
    }
}

/// A pop that nothing interrupts, into a buffer that is large enough, does to the region what
/// `try_pop` does, and gives the oldest message.
pub proof fn law_pop_is_a_run(ring: Ring, start: Spsc, events: Seq<Event>)
    requires
        fresh(ring, start),
        run(ring, start, events).consumer is Idle,
        ring.messages(run(ring, start, events).mem).len() > 0,
    ensures
        ({
            let s = run(ring, start, events);
            let message = ring.messages(s.mem)[0];
            run(ring, s, pop_events(message.len(), s.sent.len())) == (Spsc {
                mem: ring.popped(s.mem),
                received: s.received.push(message),
                seen_pushes: s.sent.len(),
                ..s
            })
        }),
{
    lemma_run(ring, start, events);
    law_spsc(ring, start, events);
    let s = run(ring, start, events);
    lemma_slots(ring, s);
    let h = ring.header(s.mem);
    let pops = s.received.len() as int;
    let message = ring.messages(s.mem)[0];
    assert(message == ring.message(s.mem, h.tail + 0));
    assert(holds(ring, s.mem, pops, s.sent[pops]));
    ring::lemma_count_zero(h);
    lemma_pop_run(ring, s, message);
}

proof fn lemma_pop_run(ring: Ring, s: Spsc, message: Seq<u8>)
    requires
        sound(ring, s),
        s.consumer is Idle,
        ring.header(s.mem).head != ring.header(s.mem).tail,
        message == ring.message(s.mem, ring.header(s.mem).tail as int),
        ring.message_len(s.mem, ring.header(s.mem).tail as int) == message.len(),
    ensures
        run(ring, s, pop_events(message.len(), s.sent.len())) == (Spsc {
            mem: ring.popped(s.mem),
            received: s.received.push(message),
            seen_pushes: s.sent.len(),
            ..s
        }),
{
    let h = ring.header(s.mem);
    let seen = s.sent.len();
    let len = message.len();
    let first = Event::StartPop { room: len, seen };
    let reads = Seq::new(len, |i: int| Event::ReadByte);
    lemma_run_three(ring, s, first, reads, Event::Release);
    lemma_start_pop(ring, s, len, seen);
    let s1 = next(ring, s, first);
    assert(RingHeader { head: (seen % (ring::counter_span() as nat)) as u64, ..h } == h);
    assert(s1 == (Spsc {
        seen_pushes: seen,
        consumer: Consumer::Reading { len, copied: Seq::empty() },
        ..s
    }));
    lemma_read_bytes(ring, s1, len, len);
    assert(message.take(len as int) =~= message);
    let s2 = Spsc { consumer: Consumer::Reading { len, copied: message }, ..s1 };
    assert(run(ring, s1, reads) == s2);
}

} // verus!
