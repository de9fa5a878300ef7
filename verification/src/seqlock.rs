//! A writer and a reader of a latest-value slot working at the same time.
//!
//! Each byte that is written or copied is a step of its own, and steps of the two sides come in
//! any order. Readers change nothing, so what holds of one reader holds of each of many.
use vstd::prelude::*;
use crate::latest_slot;
use crate::latest_slot::{LatestSlot, ReadStep, Settled};

verus! {

/// What the writer is doing.
pub enum Writer {
    /// Nothing.
    Idle,
    /// Writing `value`, of which `done` bytes are written.
    Writing { value: Seq<u8>, done: nat },
}

/// An attempt at a read that failed.
pub struct Miss {
    /// Whether a write was in progress at the first look.
    pub writing: bool,
    /// How often the counter was stored between the two looks.
    pub moved: nat,
}

/// What the reader is doing.
pub enum Reader {
    /// Nothing.
    Idle,
    /// About to look at the counter, after the attempts that failed.
    Looking { missed: Seq<Miss> },
    /// Copying the value, after the first look found `before` in the counter. `moved` is how
    /// often the counter was stored since.
    Copying { missed: Seq<Miss>, before: u64, moved: nat, started: nat, copied: Seq<u8> },
}

/// A value that a reader kept.
pub struct Kept {
    pub value: Seq<u8>,
    /// How many writes were complete when the read began.
    pub started: nat,
    /// How often the counter was stored during the read.
    pub moved: nat,
}

/// A slot in use, with the history of what was written and what was read.
pub struct Slot {
    /// The sequence counter.
    pub sequence: u64,
    /// The bytes of the value.
    pub payload: Seq<u8>,
    /// The values whose writes are complete.
    pub written: Seq<Seq<u8>>,
    /// The values that the reader kept.
    pub kept: Seq<Kept>,
    /// How often the counter had been stored when a read found no value, for each such read.
    pub empty: Seq<nat>,
    /// The failed attempts of each read that gave up.
    pub gave_up: Seq<Seq<Miss>>,
    pub writer: Writer,
    pub reader: Reader,
}

/// A step of one of the two sides.
pub enum Event {
    /// The writer makes the counter odd, to write `value`.
    BeginWrite { value: Seq<u8> },
    /// The writer writes one byte.
    WriteByte,
    /// The writer makes the counter even.
    EndWrite,
    /// The reader starts a read.
    StartRead,
    /// The reader looks at the counter.
    BeginRead,
    /// The reader copies one byte.
    CopyByte,
    /// The reader looks at the counter again, and keeps its copy or drops it.
    EndRead,
}

/// A slot that nothing was written to yet.
pub open spec fn fresh(s: Slot) -> bool {
    &&& s.sequence == 0
    &&& s.written == Seq::<Seq<u8>>::empty()
    &&& s.kept == Seq::<Kept>::empty()
    &&& s.empty == Seq::<nat>::empty()
    &&& s.gave_up == Seq::<Seq<Miss>>::empty()
    &&& s.writer is Idle
    &&& s.reader is Idle
}

/// The reader after the counter was stored.
pub open spec fn after_store(reader: Reader) -> Reader {
    match reader {
        Reader::Copying { missed, before, moved, started, copied } => Reader::Copying {
            missed,
            before,
            moved: moved + 1,
            started,
            copied,
        },
        _ => reader,
    }
}

/// The state after an attempt failed: the read goes on with the next one, or gives up.
pub open spec fn after_attempt(s: Slot, missed: Seq<Miss>, miss: Miss) -> Slot {
    if latest_slot::after_miss(missed.len() as int) == Settled::Retry {
        Slot { reader: Reader::Looking { missed: missed.push(miss) }, ..s }
    } else {
        Slot { gave_up: s.gave_up.push(missed.push(miss)), reader: Reader::Idle, ..s }
    }
}

/// The state after an event; an event that cannot happen changes nothing.
pub open spec fn next(s: Slot, e: Event) -> Slot {
    match e {
        Event::BeginWrite { value } => if s.writer is Idle && value.len() == s.payload.len() {
            Slot {
                sequence: ((s.sequence + 1) % 0x1_0000_0000_0000_0000) as u64,
                writer: Writer::Writing { value, done: 0 },
                reader: after_store(s.reader),
                ..s
            }
        } else {
            s
        },
        Event::WriteByte => match s.writer {
            Writer::Writing { value, done } if done < value.len() => Slot {
                payload: s.payload.update(done as int, value[done as int]),
                writer: Writer::Writing { value, done: done + 1 },
                ..s
            },
            _ => s,
        },
        Event::EndWrite => match s.writer {
            Writer::Writing { value, done } if done == value.len() => Slot {
                sequence: ((s.sequence + 1) % 0x1_0000_0000_0000_0000) as u64,
                written: s.written.push(value),
                writer: Writer::Idle,
                reader: after_store(s.reader),
                ..s
            },
            _ => s,
        },
        Event::StartRead => if s.reader is Idle {
            Slot { reader: Reader::Looking { missed: Seq::empty() }, ..s }
        } else {
            s
        },
        Event::BeginRead => match s.reader {
            Reader::Looking { missed } => match latest_slot::read_step(s.sequence) {
                ReadStep::Empty => Slot {
                    empty: s.empty.push(stores(s) as nat),
                    reader: Reader::Idle,
                    ..s
                },
                ReadStep::Retry => after_attempt(
                    s,
                    missed,
                    Miss { writing: s.writer is Writing, moved: 0 },
                ),
                ReadStep::Copy => Slot {
                    reader: Reader::Copying {
                        missed,
                        before: s.sequence,
                        moved: 0,
                        started: s.written.len(),
                        copied: Seq::empty(),
                    },
                    ..s
                },
            },
            _ => s,
        },
        Event::CopyByte => match s.reader {
            Reader::Copying { missed, before, moved, started, copied } if copied.len()
                < s.payload.len() => Slot {
                reader: Reader::Copying {
                    missed,
                    before,
                    moved,
                    started,
                    copied: copied.push(s.payload[copied.len() as int]),
                },
                ..s
            },
            _ => s,
        },
        Event::EndRead => match s.reader {
            Reader::Copying { missed, before, moved, started, copied } if copied.len()
                == s.payload.len() => if latest_slot::settled(
                missed.len() as int,
                before,
                s.sequence,
            ) == Settled::Keep {
                Slot {
                    kept: s.kept.push(Kept { value: copied, started, moved }),
                    reader: Reader::Idle,
                    ..s
                }
            } else {
                after_attempt(s, missed, Miss { writing: false, moved })
            },
            _ => s,
        },
    }
}

/// How often the counter was stored.
pub open spec fn stores(s: Slot) -> int {
    2 * s.written.len() + if s.writer is Idle {
        0int
    } else {
        1
    }
}

/// The state after a run of events.
pub open spec fn run(s: Slot, events: Seq<Event>) -> Slot
    decreases events.len(),
{
    if events.len() == 0 {
        s
    } else {
        next(run(s, events.drop_last()), events.last())
    }
}

/// Whether a kept value is the one whose write was the last complete one when the read began.
pub open spec fn consistent(s: Slot, k: Kept) -> bool {
    &&& 1 <= k.started <= s.written.len()
    &&& k.value == s.written[k.started - 1]
}

/// Whether an attempt failed for a reason: it met a write in progress, or a write came between
/// its two looks.
pub open spec fn met_a_write(m: Miss) -> bool {
    m.writing || m.moved > 0
}

/// Whether all attempts failed for a reason.
pub open spec fn all_met_writes(missed: Seq<Miss>) -> bool {
    forall|j: int| 0 <= j < missed.len() ==> met_a_write(#[trigger] missed[j])
}

/// What every reachable state keeps of reads that did not succeed.
spec fn fair(s: Slot) -> bool {
    &&& match s.reader {
        Reader::Idle => true,
        Reader::Looking { missed } => missed.len() < latest_slot::MAX_READ_RETRIES
            && all_met_writes(missed),
        Reader::Copying { missed, .. } => missed.len() < latest_slot::MAX_READ_RETRIES
            && all_met_writes(missed),
    }
    &&& forall|i: int|
        0 <= i < s.gave_up.len() ==> (#[trigger] s.gave_up[i]).len()
            == latest_slot::MAX_READ_RETRIES && all_met_writes(s.gave_up[i])
    &&& forall|i: int|
        0 <= i < s.empty.len() ==> #[trigger] s.empty[i] % 0x1_0000_0000_0000_0000 == 0
}

/// What every reachable state keeps.
spec fn sound(s: Slot) -> bool {
    &&& s.sequence == stores(s) % 0x1_0000_0000_0000_0000
    &&& match s.writer {
        Writer::Idle => s.written.len() > 0 ==> s.payload == s.written.last(),
        Writer::Writing { value, done } => {
            &&& value.len() == s.payload.len()
            &&& done <= value.len()
            &&& s.payload.take(done as int) == value.take(done as int)
        },
    }
    &&& match s.reader {
        Reader::Copying { missed, before, moved, started, copied } => {
            &&& before == (stores(s) - moved) % 0x1_0000_0000_0000_0000
            &&& stores(s) - moved == 2 * started
            &&& 1 <= started <= s.written.len()
            &&& copied.len() <= s.payload.len()
            &&& moved == 0 ==> copied == s.payload.take(copied.len() as int)
        },
        _ => true,
    }
    &&& forall|i: int|
        0 <= i < s.kept.len() ==> {
            let k = #[trigger] s.kept[i];
            &&& k.started <= s.written.len()
            &&& k.moved < 0x1_0000_0000_0000_0000 ==> consistent(s, k)
        }
    &&& forall|i: int, j: int|
        0 <= i < j < s.kept.len() ==> (#[trigger] s.kept[i]).started <= (
        #[trigger] s.kept[j]).started
    &&& match s.reader {
        Reader::Copying { started, .. } => forall|i: int|
            0 <= i < s.kept.len() ==> (#[trigger] s.kept[i]).started <= started,
        _ => true,
    }
    &&& fair(s)
}

/// One more store makes the wrapped counter one more.
proof fn lemma_store(n: int)
    ensures
        ((n % 0x1_0000_0000_0000_0000) + 1) % 0x1_0000_0000_0000_0000 == (n + 1)
            % 0x1_0000_0000_0000_0000,
{
}

proof fn lemma_begin_write(s: Slot, value: Seq<u8>)
    requires
        sound(s),
    ensures
        sound(next(s, Event::BeginWrite { value })),
{
    let out = next(s, Event::BeginWrite { value });
    lemma_store(stores(s));
    if s.writer is Idle && value.len() == s.payload.len() {
        assert(out.payload.take(0) =~= value.take(0));
        assert forall|i: int| 0 <= i < out.kept.len() implies {
            let k = #[trigger] out.kept[i];
            k.moved < 0x1_0000_0000_0000_0000 ==> consistent(out, k)
        } by {
            assert(s.kept[i] == out.kept[i]);
        }
    }
}

proof fn lemma_write_byte(s: Slot)
    requires
        sound(s),
    ensures
        sound(next(s, Event::WriteByte)),
{
    let out = next(s, Event::WriteByte);
    if let Writer::Writing { value, done } = s.writer {
        if done < value.len() {
            assert forall|i: int| 0 <= i < done implies out.payload[i] == value[i] by {
                assert(s.payload.take(done as int)[i] == value.take(done as int)[i]);
            }
            assert(out.payload.take(done as int + 1) =~= value.take(done as int + 1));
            // A read in progress has seen the counter move.
            assert forall|i: int| 0 <= i < out.kept.len() implies {
                let k = #[trigger] out.kept[i];
                k.moved < 0x1_0000_0000_0000_0000 ==> consistent(out, k)
            } by {
                assert(s.kept[i] == out.kept[i]);
            }
        }
    }
}

proof fn lemma_end_write(s: Slot)
    requires
        sound(s),
    ensures
        sound(next(s, Event::EndWrite)),
{
    let out = next(s, Event::EndWrite);
    lemma_store(stores(s));
    if let Writer::Writing { value, done } = s.writer {
        if done == value.len() {
            assert(s.payload.take(done as int) =~= s.payload);
            assert(value.take(done as int) =~= value);
            assert forall|i: int| 0 <= i < out.kept.len() implies {
                let k = #[trigger] out.kept[i];
                &&& k.started <= out.written.len()
                &&& k.moved < 0x1_0000_0000_0000_0000 ==> consistent(out, k)
            } by {
                assert(s.kept[i] == out.kept[i]);
            }
        }
    }
}

proof fn lemma_begin_read(s: Slot)
    requires
        sound(s),
    ensures
        sound(next(s, Event::BeginRead)),
{
    let out = next(s, Event::BeginRead);
    if s.reader is Looking && latest_slot::read_step(s.sequence) == ReadStep::Copy {
        // The counter is even, so no write is in progress; and it is not zero.
        assert(s.writer is Idle);
        assert(s.written.len() > 0);
        assert(Seq::<u8>::empty() =~= s.payload.take(0));
        assert forall|i: int| 0 <= i < out.kept.len() implies (#[trigger] out.kept[i]).started
            <= s.written.len() by {
            assert(s.kept[i] == out.kept[i]);
        }
    }
}

proof fn lemma_copy_byte(s: Slot)
    requires
        sound(s),
    ensures
        sound(next(s, Event::CopyByte)),
{
    if let Reader::Copying { missed, before, moved, started, copied } = s.reader {
        if copied.len() < s.payload.len() {
            let k = copied.len() as int;
            if moved == 0 {
                assert(copied.push(s.payload[k]) =~= s.payload.take(k + 1));
            }
        }
    }
}

proof fn lemma_end_read(s: Slot)
    requires
        sound(s),
    ensures
        sound(next(s, Event::EndRead)),
{
    let out = next(s, Event::EndRead);
    if let Reader::Copying { missed, before, moved, started, copied } = s.reader {
        if copied.len() == s.payload.len() && before == s.sequence {
            if moved < 0x1_0000_0000_0000_0000 {
                // The counter is where it was, so it has not moved.
                assert(moved == 0);
                assert(s.payload.take(copied.len() as int) =~= s.payload);
                assert(s.writer is Idle);
                assert(consistent(out, Kept { value: copied, started, moved }));
            }
            assert forall|i: int| 0 <= i < out.kept.len() implies {
                let k = #[trigger] out.kept[i];
                &&& k.started <= out.written.len()
                &&& k.moved < 0x1_0000_0000_0000_0000 ==> consistent(out, k)
            } by {
                if i < s.kept.len() {
                    assert(s.kept[i] == out.kept[i]);
                }
            }
            assert forall|i: int, j: int| 0 <= i < j < out.kept.len() implies (
            #[trigger] out.kept[i]).started <= (#[trigger] out.kept[j]).started by {
                assert(s.kept[i] == out.kept[i]);
                if j < s.kept.len() {
                    assert(s.kept[j] == out.kept[j]);
                }
            }
        }
    }
}

proof fn lemma_run(s: Slot, events: Seq<Event>)
    requires
        fresh(s),
    ensures
        sound(run(s, events)),
    decreases events.len(),
{
    if events.len() > 0 {
        lemma_run(s, events.drop_last());
        let before = run(s, events.drop_last());
        match events.last() {
            Event::BeginWrite { value } => lemma_begin_write(before, value),
            Event::WriteByte => lemma_write_byte(before),
            Event::EndWrite => lemma_end_write(before),
            Event::StartRead => {},
            Event::BeginRead => lemma_begin_read(before),
            Event::CopyByte => lemma_copy_byte(before),
            Event::EndRead => lemma_end_read(before),
        }
    }
}

/// However the steps of a writer and a reader interleave, every value that the reader keeps is
/// one that was written whole: the latest one when the read began. (The counter must not run
/// through all its 2^64 values during a single read.)
pub proof fn law_reads_are_consistent(s: Slot, events: Seq<Event>, i: int)
    requires
        fresh(s),
        0 <= i < run(s, events).kept.len(),
        run(s, events).kept[i].moved < 0x1_0000_0000_0000_0000,
    ensures
        consistent(run(s, events), run(s, events).kept[i]),
{
    lemma_run(s, events);
}

/// A reader never goes back to an older value: later reads begin after at least as many writes.
pub proof fn law_reads_do_not_go_back(s: Slot, events: Seq<Event>, i: int, j: int)
    requires
        fresh(s),
        0 <= i <= j < run(s, events).kept.len(),
    ensures
        run(s, events).kept[i].started <= run(s, events).kept[j].started,
{
    lemma_run(s, events);
}

/// A read gives up only after `MAX_READ_RETRIES` attempts in a row, each of which met a write in
/// progress or had a write come between its two looks. And it finds no value only before the first
/// write begins, or where the counter has just run through all its 2^64 values.
pub proof fn law_reads_fail_for_a_reason(s: Slot, events: Seq<Event>, i: int)
    requires
        fresh(s),
    ensures
        0 <= i < run(s, events).gave_up.len() ==> {
            &&& run(s, events).gave_up[i].len() == latest_slot::MAX_READ_RETRIES
            &&& all_met_writes(run(s, events).gave_up[i])
        },
        0 <= i < run(s, events).empty.len() ==> run(s, events).empty[i]
            % 0x1_0000_0000_0000_0000 == 0,
{
    lemma_run(s, events);
}

/// The next step of a reader that is reading.
pub open spec fn reader_step(s: Slot) -> Event {
    match s.reader {
        Reader::Copying { copied, .. } => if copied.len() < s.payload.len() {
            Event::CopyByte
        } else {
            Event::EndRead
        },
        _ => Event::BeginRead,
    }
}

/// How many steps a read still takes at most: a look, a byte at a time, and a look, for each
/// attempt that is left.
pub open spec fn steps_left(s: Slot) -> int {
    let attempt = s.payload.len() + 2;
    match s.reader {
        Reader::Idle => 0,
        Reader::Looking { missed } => (latest_slot::MAX_READ_RETRIES - missed.len()) * attempt,
        Reader::Copying { missed, copied, .. } => (latest_slot::MAX_READ_RETRIES - missed.len()
            - 1) * attempt + s.payload.len() - copied.len() + 1,
    }
}

/// Every read ends: each of its steps brings the end nearer, and nothing that the writer does
/// moves it away.
pub proof fn law_reads_end(s: Slot, events: Seq<Event>, e: Event)
    requires
        fresh(s),
        !(run(s, events).reader is Idle),
        e is BeginWrite || e is WriteByte || e is EndWrite,
    ensures
        ({
            let now = run(s, events);
            &&& 0 <= steps_left(next(now, reader_step(now))) < steps_left(now)
            &&& steps_left(next(now, e)) == steps_left(now)
        }),
{
    lemma_run(s, events);
    let now = run(s, events);
    let attempt = now.payload.len() + 2;
    match now.reader {
        Reader::Idle => {},
        Reader::Looking { missed } => {
            lemma_attempts(latest_slot::MAX_READ_RETRIES - missed.len(), attempt as int);
        },
        Reader::Copying { missed, .. } => {
            lemma_attempts(latest_slot::MAX_READ_RETRIES - missed.len(), attempt as int);
        },
    }
}

/// One attempt less.
proof fn lemma_attempts(n: int, attempt: int)
    requires
        1 <= n,
        0 <= attempt,
    ensures
        n * attempt == (n - 1) * attempt + attempt,
        0 <= (n - 1) * attempt,
{
    assert(n * attempt == (n - 1) * attempt + attempt) by (nonlinear_arith);
    assert(0 <= (n - 1) * attempt) by (nonlinear_arith)
        requires
            1 <= n,
            0 <= attempt,
    ;
}

/// The steps of a whole write.
pub open spec fn write_events(value: Seq<u8>) -> Seq<Event> {
    seq![Event::BeginWrite { value }] + Seq::new(value.len(), |i: int| Event::WriteByte) + seq![
        Event::EndWrite,
    ]
}

proof fn lemma_run_split(s: Slot, a: Seq<Event>, b: Seq<Event>)
    ensures
        run(s, a + b) == run(run(s, a), b),
    decreases b.len(),
{
    if b.len() == 0 {
        assert(a + b =~= a);
    } else {
        lemma_run_split(s, a, b.drop_last());
        assert((a + b).drop_last() =~= a + b.drop_last());
        assert((a + b).last() == b.last());
    }
}

proof fn lemma_run_one(s: Slot, e: Event)
    ensures
        run(s, seq![e]) == next(s, e),
{
    assert(seq![e].drop_last() =~= Seq::<Event>::empty());
    assert(run(s, Seq::<Event>::empty()) == s);
}

proof fn lemma_write_bytes(s: Slot, value: Seq<u8>, k: nat)
    requires
        s.writer == (Writer::Writing { value, done: 0 }),
        value.len() == s.payload.len(),
        k <= value.len(),
    ensures
        run(s, Seq::new(k, |i: int| Event::WriteByte)) == (Slot {
            payload: value.take(k as int) + s.payload.skip(k as int),
            writer: Writer::Writing { value, done: k },
            ..s
        }),
    decreases k,
{
    let events = Seq::new(k, |i: int| Event::WriteByte);
    if k == 0 {
        assert(value.take(0) + s.payload.skip(0) =~= s.payload);
    } else {
        let j = (k - 1) as nat;
        lemma_write_bytes(s, value, j);
        assert(events.drop_last() =~= Seq::new(j, |i: int| Event::WriteByte));
        assert((value.take(j as int) + s.payload.skip(j as int)).update(
            j as int,
            value[j as int],
        ) =~= value.take(k as int) + s.payload.skip(k as int));
    }
}

proof fn lemma_write_events(s: Slot, value: Seq<u8>)
    requires
        s.payload.len() == value.len(),
        s.writer is Idle,
        s.reader is Idle,
    ensures
        run(s, write_events(value)) == (Slot {
            sequence: ((((s.sequence + 1) % 0x1_0000_0000_0000_0000) + 1)
                % 0x1_0000_0000_0000_0000) as u64,
            payload: value,
            written: s.written.push(value),
            writer: Writer::Idle,
            ..s
        }),
{
    let begin = seq![Event::BeginWrite { value }];
    let writes = Seq::new(value.len(), |i: int| Event::WriteByte);
    let finish = seq![Event::EndWrite];
    lemma_run_split(s, begin + writes, finish);
    lemma_run_split(s, begin, writes);
    lemma_run_one(s, Event::BeginWrite { value });
    let s1 = next(s, Event::BeginWrite { value });
    lemma_write_bytes(s1, value, value.len());
    assert(value.take(value.len() as int) + s1.payload.skip(value.len() as int) =~= value);
    lemma_run_one(run(s1, writes), Event::EndWrite);
}

/// A write that nothing interrupts does to counter and value what `write` does to a slot in a
/// region.
pub proof fn law_write_is_a_run<T: Copy>(
    slot: LatestSlot<T>,
    mem: Seq<u8>,
    value: Seq<u8>,
    s: Slot,
)
    requires
        slot.fits(mem),
        value.len() == vstd::layout::size_of::<T>(),
        s.sequence == slot.sequence_in(mem),
        s.payload == slot.payload(mem),
        s.writer is Idle,
        s.reader is Idle,
    ensures
        ({
            let end = run(s, write_events(value));
            &&& end.sequence == slot.sequence_in(slot.written(mem, value))
            &&& end.payload == slot.payload(slot.written(mem, value))
            &&& end.written == s.written.push(value)
        }),
{
    latest_slot::lemma_written(slot, mem, value);
    lemma_write_events(s, value);
    lemma_store(s.sequence + 1);
}

/// The steps of a whole read that nothing interrupts, of a value of `n` bytes: looks and copying,
/// or as many looks as there are attempts where a write is in progress and goes no further.
pub open spec fn read_events(sequence: u64, n: nat) -> Seq<Event> {
    match latest_slot::read_step(sequence) {
        ReadStep::Empty => seq![Event::StartRead, Event::BeginRead],
        ReadStep::Retry => seq![Event::StartRead] + Seq::new(
            latest_slot::MAX_READ_RETRIES as nat,
            |i: int| Event::BeginRead,
        ),
        ReadStep::Copy => seq![Event::StartRead, Event::BeginRead] + Seq::new(
            n,
            |i: int| Event::CopyByte,
        ) + seq![Event::EndRead],
    }
}

proof fn lemma_run_two(s: Slot, a: Event, b: Event)
    ensures
        run(s, seq![a, b]) == next(next(s, a), b),
{
    assert(seq![a, b].drop_last() =~= seq![a]);
    lemma_run_one(s, a);
}

/// The first `k` bytes of the value, copied one by one.
proof fn lemma_copy_bytes(s: Slot, k: nat)
    requires
        s.reader matches Reader::Copying { copied, .. } && copied.len() == 0,
        k <= s.payload.len(),
    ensures
        run(s, Seq::new(k, |i: int| Event::CopyByte)) == (match s.reader {
            Reader::Copying { missed, before, moved, started, .. } => Slot {
                reader: Reader::Copying {
                    missed,
                    before,
                    moved,
                    started,
                    copied: s.payload.take(k as int),
                },
                ..s
            },
            _ => s,
        }),
    decreases k,
{
    let events = Seq::new(k, |i: int| Event::CopyByte);
    if k == 0 {
        assert(s.payload.take(0) =~= s.reader->copied);
    } else {
        let j = (k - 1) as nat;
        lemma_copy_bytes(s, j);
        assert(events.drop_last() =~= Seq::new(j, |i: int| Event::CopyByte));
        assert(s.payload.take(j as int).push(s.payload[j as int]) =~= s.payload.take(k as int));
    }
}

/// Looks that find a write in progress.
proof fn lemma_looks(s: Slot, k: nat)
    requires
        s.reader == (Reader::Looking { missed: Seq::empty() }),
        latest_slot::read_step(s.sequence) == ReadStep::Retry,
        k < latest_slot::MAX_READ_RETRIES,
    ensures
        run(s, Seq::new(k, |i: int| Event::BeginRead)) == (Slot {
            reader: Reader::Looking {
                missed: Seq::new(k, |i: int| Miss { writing: s.writer is Writing, moved: 0 }),
            },
            ..s
        }),
    decreases k,
{
    let miss = Miss { writing: s.writer is Writing, moved: 0 };
    let events = Seq::new(k, |i: int| Event::BeginRead);
    if k == 0 {
        assert(Seq::new(0, |i: int| miss) =~= Seq::<Miss>::empty());
    } else {
        let j = (k - 1) as nat;
        lemma_looks(s, j);
        assert(events.drop_last() =~= Seq::new(j, |i: int| Event::BeginRead));
        assert(Seq::new(j, |i: int| miss).push(miss) =~= Seq::new(k, |i: int| miss));
    }
}

proof fn lemma_read_copy(s: Slot)
    requires
        s.reader is Idle,
        latest_slot::read_step(s.sequence) == ReadStep::Copy,
    ensures
        run(s, read_events(s.sequence, s.payload.len())) == (Slot {
            kept: s.kept.push(
                Kept { value: s.payload, started: s.written.len(), moved: 0 },
            ),
            ..s
        }),
{
    let n = s.payload.len();
    let begin = seq![Event::StartRead, Event::BeginRead];
    let copies = Seq::new(n, |i: int| Event::CopyByte);
    lemma_run_split(s, begin + copies, seq![Event::EndRead]);
    lemma_run_split(s, begin, copies);
    lemma_run_two(s, Event::StartRead, Event::BeginRead);
    let s1 = next(next(s, Event::StartRead), Event::BeginRead);
    lemma_copy_bytes(s1, n);
    assert(s.payload.take(n as int) =~= s.payload);
    lemma_run_one(run(s1, copies), Event::EndRead);
}

proof fn lemma_read_retry(s: Slot)
    requires
        s.reader is Idle,
        latest_slot::read_step(s.sequence) == ReadStep::Retry,
    ensures
        ({
            let end = run(s, read_events(s.sequence, s.payload.len()));
            &&& end.gave_up.len() == s.gave_up.len() + 1
            &&& end == Slot { gave_up: end.gave_up, ..s }
        }),
{
    let most = (latest_slot::MAX_READ_RETRIES - 1) as nat;
    let looks = Seq::new(latest_slot::MAX_READ_RETRIES as nat, |i: int| Event::BeginRead);
    let first = Seq::new(most, |i: int| Event::BeginRead);
    lemma_run_split(s, seq![Event::StartRead], looks);
    lemma_run_one(s, Event::StartRead);
    let s1 = next(s, Event::StartRead);
    lemma_looks(s1, most);
    assert(looks.drop_last() =~= first);
    assert(run(s1, looks) == next(run(s1, first), Event::BeginRead));
}

/// A read that nothing interrupts ends as `read` does on a slot in a region: with the value where
/// one was written and no write is in progress, and with nothing otherwise; and it changes
/// nothing.
pub proof fn law_read_is_a_run<T: Copy>(slot: LatestSlot<T>, mem: Seq<u8>, s: Slot)
    requires
        slot.fits(mem),
        s.sequence == slot.sequence_in(mem),
        s.payload == slot.payload(mem),
        s.reader is Idle,
    ensures
        ({
            let end = run(s, read_events(s.sequence, s.payload.len()));
            &&& end.sequence == s.sequence
            &&& end.payload == s.payload
            &&& end.writer == s.writer
            &&& end.reader is Idle
            &&& match latest_slot::read_step(slot.sequence_in(mem)) {
                ReadStep::Copy => {
                    &&& end.kept.len() == s.kept.len() + 1
                    &&& end.kept.last().value == slot.payload(mem)
                    &&& end.kept.last().moved == 0
                },
                ReadStep::Empty => end.kept == s.kept && end.empty.len() == s.empty.len() + 1,
                ReadStep::Retry => end.kept == s.kept && end.gave_up.len() == s.gave_up.len() + 1,
            }
        }),
{
    match latest_slot::read_step(s.sequence) {
        ReadStep::Copy => lemma_read_copy(s),
        ReadStep::Retry => lemma_read_retry(s),
        ReadStep::Empty => lemma_run_two(s, Event::StartRead, Event::BeginRead),
    }
}

} // verus!
