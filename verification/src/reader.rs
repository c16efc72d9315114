//! Reading samples: what the reader does next, given what came back of what it did last, and
//! what it prints of a record.
use crate::debug::{
    hex_digits, law_hex_digits, line_feed, puts, write_hex, writes, DebugOutput,
};
use crate::numbers::{digit, digits_value};
use vstd::prelude::*;
use vstd::utf8::encode_utf8;

verus! {

/// How long the reader waits for a notification, in milliseconds.
pub const WAIT_TIMEOUT_MS: i32 = 15_000;

/// One frame of a Python stack.
#[derive(Debug, Clone, Copy, PartialEq, Eq, Structural)]
pub struct StackFrame {
    pub code_object: usize,
    pub instr_offset: usize,
}

/// A sample that was taken in a thread.
pub struct StackRecord {
    pub tid: usize,
    /// The frames, the innermost first.
    pub frames: Vec<StackFrame>,
}

/// What the reader has to do next.
#[derive(Debug, Clone, Copy, PartialEq, Eq, Structural)]
pub enum ReaderStep {
    /// Create the set of descriptors to wait for.
    CreateSet,
    /// Add the event descriptor to it.
    AddEventFd,
    /// Wait for a notification or the timeout.
    Wait { timeout_ms: i32 },
    /// Lock a shard, so that no signal handler is in the middle of a write to its queue.
    LockShard { shard: usize },
    /// Read the next record of the locked shard.
    ReadRecord { shard: usize },
    /// Give the space of the record that was read back to the queue.
    Release { shard: usize },
    /// Unlock the shard.
    UnlockShard { shard: usize },
    /// Nothing is left to do.
    Stopped,
}

/// What came back.
pub enum ReaderEvent {
    /// It was done.
    Done,
    /// It could not be done.
    Failed,
    /// A record was read, with what it says where that could be parsed.
    Record(Option<StackRecord>),
    /// The shard's queue is empty.
    Empty,
}

/// The step with which the given shard begins; behind the last shard the reader waits again.
pub open spec fn shard_step(num_shards: usize, shard: int) -> ReaderStep {
    if shard < num_shards {
        ReaderStep::LockShard { shard: shard as usize }
    } else {
        ReaderStep::Wait { timeout_ms: WAIT_TIMEOUT_MS }
    }
}

/// The step after `step`. A wait that timed out or failed is followed by the same as one that was
/// notified. An event that no run of the step has leaves it to be done.
pub open spec fn reader_after(
    num_shards: usize,
    step: ReaderStep,
    event: ReaderEvent,
) -> ReaderStep {
    match (step, event) {
        (ReaderStep::CreateSet, ReaderEvent::Done) => ReaderStep::AddEventFd,
        (ReaderStep::CreateSet, ReaderEvent::Failed) => ReaderStep::Stopped,
        (ReaderStep::AddEventFd, ReaderEvent::Done) => ReaderStep::Wait {
            timeout_ms: WAIT_TIMEOUT_MS,
        },
        (ReaderStep::AddEventFd, ReaderEvent::Failed) => ReaderStep::Stopped,
        (ReaderStep::Wait { .. }, ReaderEvent::Done) => shard_step(num_shards, 0),
        (ReaderStep::Wait { .. }, ReaderEvent::Failed) => shard_step(num_shards, 0),
        (ReaderStep::LockShard { shard }, ReaderEvent::Done) => ReaderStep::ReadRecord { shard },
        (ReaderStep::ReadRecord { shard }, ReaderEvent::Record(_)) => ReaderStep::Release {
            shard,
        },
        (ReaderStep::ReadRecord { shard }, ReaderEvent::Empty) => ReaderStep::UnlockShard {
            shard,
        },
        (ReaderStep::Release { shard }, ReaderEvent::Done) => ReaderStep::ReadRecord { shard },
        (ReaderStep::UnlockShard { shard }, ReaderEvent::Done) => shard_step(
            num_shards,
            shard + 1,
        ),
        (step, _) => step,
    }
}

/// What is printed of one frame.
pub open spec fn frame_text(index: int, frame: StackFrame) -> Seq<Seq<u8>> {
    seq![
        encode_utf8("  reader: ["@),
        hex_digits(index as nat),
        encode_utf8("] code=0x"@),
        hex_digits(frame.code_object as nat),
        encode_utf8(" instr=0x"@),
        hex_digits(frame.instr_offset as nat),
        encode_utf8(""@),
        line_feed(),
    ]
}

/// What is printed of the frames from the first on.
pub open spec fn frames_text(frames: Seq<StackFrame>) -> Seq<Seq<u8>>
    decreases frames.len(),
{
    if frames.len() == 0 {
        Seq::empty()
    } else {
        frames_text(frames.drop_last()) + frame_text(frames.len() - 1, frames.last())
    }
}

/// What is printed of a record: a line with its thread and depth, then a line per frame.
pub open spec fn record_text(record: StackRecord) -> Seq<Seq<u8>> {
    seq![
        encode_utf8("reader: tid="@),
        hex_digits(record.tid as nat),
        encode_utf8(" depth="@),
        hex_digits(record.frames@.len()),
        encode_utf8(""@),
        line_feed(),
    ] + frames_text(record.frames@)
}

/// What is printed when `event` comes back of `step`.
pub open spec fn event_text(step: ReaderStep, event: ReaderEvent) -> Seq<Seq<u8>> {
    match (step, event) {
        (ReaderStep::ReadRecord { .. }, ReaderEvent::Record(Some(record))) => record_text(record),
        _ => Seq::empty(),
    }
}

fn print_frame(out: &mut DebugOutput, index: usize, frame: &StackFrame)
    ensures
        final(out).enabled == old(out).enabled,
        final(out)@ == old(out).plus(frame_text(index as int, *frame)),
{
    writes(out, "  reader: [");
    write_hex(out, index);
    writes(out, "] code=0x");
    write_hex(out, frame.code_object);
    writes(out, " instr=0x");
    write_hex(out, frame.instr_offset);
    puts(out, "");
    assert(out@ =~= old(out).plus(frame_text(index as int, *frame)));
}

/// Prints a record.
pub fn print_record(out: &mut DebugOutput, record: &StackRecord)
    ensures
        final(out).enabled == old(out).enabled,
        final(out)@ == old(out).plus(record_text(*record)),
{
    writes(out, "reader: tid=");
    write_hex(out, record.tid);
    writes(out, " depth=");
    write_hex(out, record.frames.len());
    puts(out, "");
    let ghost head = out@;
    let ghost enabled = out.enabled;
    let ghost frames = record.frames@;
    let mut i: usize = 0;
    assert(frames.take(0) =~= Seq::<StackFrame>::empty());
    assert(head + frames_text(frames.take(0)) =~= head);
    while i < record.frames.len()
        invariant
            0 <= i <= record.frames@.len(),
            frames == record.frames@,
            out.enabled == enabled,
            out@ == if enabled {
                head + frames_text(frames.take(i as int))
            } else {
                head
            },
        decreases record.frames@.len() - i,
    {
        print_frame(out, i, &record.frames[i]);
        proof {
            let next = frames.take(i + 1);
            assert(next.drop_last() =~= frames.take(i as int));
            assert(next.last() == frames[i as int]);
            assert(head + frames_text(frames.take(i as int)) + frame_text(i as int, frames[i as int])
                =~= head + frames_text(next));
        }
        i += 1;
    }
    assert(frames.take(i as int) =~= frames);
    assert(out@ =~= old(out).plus(record_text(*record)));
}

/// Begins to read.
pub fn begin_reading() -> (r: ReaderStep)
    ensures
        r == ReaderStep::CreateSet,
{
    ReaderStep::CreateSet
}

fn shard_or_wait(num_shards: usize, shard: usize) -> (r: ReaderStep)
    ensures
        r == shard_step(num_shards, shard as int),
{
    if shard < num_shards {
        ReaderStep::LockShard { shard }
    } else {
        ReaderStep::Wait { timeout_ms: WAIT_TIMEOUT_MS }
    }
}

/// Says what the reader has to do next, and prints the record that came back, if any.
pub fn next_reader_step(
    num_shards: usize,
    step: ReaderStep,
    event: &ReaderEvent,
    out: &mut DebugOutput,
) -> (r: ReaderStep)
    ensures
        r == reader_after(num_shards, step, *event),
        final(out).enabled == old(out).enabled,
        final(out)@ == old(out).plus(event_text(step, *event)),
{
    assert(out@ =~= old(out).plus(Seq::<Seq<u8>>::empty()));
    match (step, event) {
        (ReaderStep::CreateSet, ReaderEvent::Done) => ReaderStep::AddEventFd,
        (ReaderStep::CreateSet, ReaderEvent::Failed) => ReaderStep::Stopped,
        (ReaderStep::AddEventFd, ReaderEvent::Done) => {
            ReaderStep::Wait { timeout_ms: WAIT_TIMEOUT_MS }
        },
        (ReaderStep::AddEventFd, ReaderEvent::Failed) => ReaderStep::Stopped,
        (ReaderStep::Wait { .. }, ReaderEvent::Done) => shard_or_wait(num_shards, 0),
        (ReaderStep::Wait { .. }, ReaderEvent::Failed) => shard_or_wait(num_shards, 0),
        (ReaderStep::LockShard { shard }, ReaderEvent::Done) => ReaderStep::ReadRecord { shard },
        (ReaderStep::ReadRecord { shard }, ReaderEvent::Record(record)) => {
            match record {
                Some(record) => print_record(out, record),
                None => {},
            }
            ReaderStep::Release { shard }
        },
        (ReaderStep::ReadRecord { shard }, ReaderEvent::Empty) => {
            ReaderStep::UnlockShard { shard }
        },
        (ReaderStep::Release { shard }, ReaderEvent::Done) => ReaderStep::ReadRecord { shard },
        (ReaderStep::UnlockShard { shard }, ReaderEvent::Done) => {
            if shard == usize::MAX {
                ReaderStep::Wait { timeout_ms: WAIT_TIMEOUT_MS }
            } else {
                shard_or_wait(num_shards, shard + 1)
            }
        },
        (step, _) => step,
    }
}

/// The step after all of `events`, one after the other.
pub open spec fn reader_after_all(
    num_shards: usize,
    step: ReaderStep,
    events: Seq<ReaderEvent>,
) -> ReaderStep
    decreases events.len(),
{
    if events.len() == 0 {
        step
    } else {
        reader_after_all(num_shards, reader_after(num_shards, step, events[0]), events.skip(1))
    }
}

/// What is printed while `events` come back, one after the other.
pub open spec fn text_of_all(
    num_shards: usize,
    step: ReaderStep,
    events: Seq<ReaderEvent>,
) -> Seq<Seq<u8>>
    decreases events.len(),
{
    if events.len() == 0 {
        Seq::empty()
    } else {
        event_text(step, events[0]) + text_of_all(
            num_shards,
            reader_after(num_shards, step, events[0]),
            events.skip(1),
        )
    }
}

/// The shard that a step works on, which is locked unless it is about to be.
pub open spec fn step_shard(step: ReaderStep) -> Option<usize> {
    match step {
        ReaderStep::LockShard { shard } => Some(shard),
        ReaderStep::ReadRecord { shard } => Some(shard),
        ReaderStep::Release { shard } => Some(shard),
        ReaderStep::UnlockShard { shard } => Some(shard),
        _ => None,
    }
}

/// A step names only shards that exist.
pub open spec fn reader_ok(num_shards: usize, step: ReaderStep) -> bool {
    step_shard(step) matches Some(shard) ==> shard < num_shards
}

/// The reader only ever works on shards that exist, and from one step to the next it stays with
/// its shard unless it has just unlocked it.
pub proof fn law_reader_stays_in_range(num_shards: usize, step: ReaderStep, event: ReaderEvent)
    requires
        reader_ok(num_shards, step),
    ensures
        reader_ok(num_shards, reader_after(num_shards, step, event)),
        step_shard(step) is Some && !(step is UnlockShard) ==> step_shard(
            reader_after(num_shards, step, event),
        ) == step_shard(step),
{
}

/// Every record that is read is released before anything else happens, whether or not it could
/// be parsed.
pub proof fn law_records_are_released(num_shards: usize, shard: usize, record: Option<StackRecord>)
    ensures
        reader_after(num_shards, ReaderStep::ReadRecord { shard }, ReaderEvent::Record(record))
            == (ReaderStep::Release { shard }),
        forall|event: ReaderEvent|
            #![trigger reader_after(num_shards, ReaderStep::Release { shard }, event)]
            reader_after(num_shards, ReaderStep::Release { shard }, event) == (
            ReaderStep::Release { shard }) || reader_after(
                num_shards,
                ReaderStep::Release { shard },
                event,
            ) == (ReaderStep::ReadRecord { shard }),
{
}

/// Once it waits, the reader never stops.
pub proof fn law_reader_keeps_running(
    num_shards: usize,
    step: ReaderStep,
    events: Seq<ReaderEvent>,
)
    requires
        step is Wait || step_shard(step) is Some,
    ensures
        reader_after_all(num_shards, step, events) is Wait || step_shard(
            reader_after_all(num_shards, step, events),
        ) is Some,
    decreases events.len(),
{
    if events.len() > 0 {
        law_reader_keeps_running(
            num_shards,
            reader_after(num_shards, step, events[0]),
            events.skip(1),
        );
    }
}

/// What comes back while a shard with these records is drained: the lock, each record and its
/// release, the empty queue and the unlock.
pub open spec fn drain_events(records: Seq<Option<StackRecord>>) -> Seq<ReaderEvent> {
    seq![ReaderEvent::Done] + read_events(records) + seq![ReaderEvent::Empty, ReaderEvent::Done]
}

/// What comes back while these records are read.
pub open spec fn read_events(records: Seq<Option<StackRecord>>) -> Seq<ReaderEvent>
    decreases records.len(),
{
    if records.len() == 0 {
        Seq::empty()
    } else {
        seq![ReaderEvent::Record(records[0]), ReaderEvent::Done] + read_events(records.skip(1))
    }
}

/// What comes back while the shards that hold these records are drained one after the other.
pub open spec fn sweep_events(shards: Seq<Seq<Option<StackRecord>>>) -> Seq<ReaderEvent>
    decreases shards.len(),
{
    if shards.len() == 0 {
        Seq::empty()
    } else {
        drain_events(shards[0]) + sweep_events(shards.skip(1))
    }
}

/// What is printed of records, those left out that could not be parsed.
pub open spec fn records_text(records: Seq<Option<StackRecord>>) -> Seq<Seq<u8>>
    decreases records.len(),
{
    if records.len() == 0 {
        Seq::empty()
    } else {
        (match records[0] {
            Some(record) => record_text(record),
            None => Seq::empty(),
        }) + records_text(records.skip(1))
    }
}

/// What is printed of the records of these shards.
pub open spec fn shards_text(shards: Seq<Seq<Option<StackRecord>>>) -> Seq<Seq<u8>>
    decreases shards.len(),
{
    if shards.len() == 0 {
        Seq::empty()
    } else {
        records_text(shards[0]) + shards_text(shards.skip(1))
    }
}

proof fn lemma_after_all_concat(
    num_shards: usize,
    step: ReaderStep,
    a: Seq<ReaderEvent>,
    b: Seq<ReaderEvent>,
)
    ensures
        reader_after_all(num_shards, step, a + b) == reader_after_all(
            num_shards,
            reader_after_all(num_shards, step, a),
            b,
        ),
        text_of_all(num_shards, step, a + b) == text_of_all(num_shards, step, a) + text_of_all(
            num_shards,
            reader_after_all(num_shards, step, a),
            b,
        ),
    decreases a.len(),
{
    if a.len() == 0 {
        assert(a + b =~= b);
        assert(text_of_all(num_shards, step, a) =~= Seq::<Seq<u8>>::empty());
    } else {
        assert((a + b).skip(1) =~= a.skip(1) + b);
        assert((a + b)[0] == a[0]);
        lemma_after_all_concat(num_shards, reader_after(num_shards, step, a[0]), a.skip(1), b);
    }
    assert(text_of_all(num_shards, step, a + b) =~= text_of_all(num_shards, step, a) + text_of_all(
        num_shards,
        reader_after_all(num_shards, step, a),
        b,
    ));
}

proof fn lemma_reads(num_shards: usize, shard: usize, records: Seq<Option<StackRecord>>)
    ensures
        reader_after_all(num_shards, ReaderStep::ReadRecord { shard }, read_events(records)) == (
        ReaderStep::ReadRecord { shard }),
        text_of_all(num_shards, ReaderStep::ReadRecord { shard }, read_events(records))
            == records_text(records),
    decreases records.len(),
{
    reveal_with_fuel(reader_after_all, 3);
    reveal_with_fuel(text_of_all, 3);
    if records.len() > 0 {
        let two = seq![ReaderEvent::Record(records[0]), ReaderEvent::Done];
        let rest = read_events(records.skip(1));
        assert(two.skip(1).skip(1) =~= Seq::<ReaderEvent>::empty());
        lemma_after_all_concat(num_shards, ReaderStep::ReadRecord { shard }, two, rest);
        lemma_reads(num_shards, shard, records.skip(1));
    }
}

proof fn lemma_drain(num_shards: usize, shard: usize, records: Seq<Option<StackRecord>>)
    ensures
        reader_after_all(num_shards, ReaderStep::LockShard { shard }, drain_events(records))
            == shard_step(num_shards, shard + 1),
        text_of_all(num_shards, ReaderStep::LockShard { shard }, drain_events(records))
            == records_text(records),
{
    reveal_with_fuel(reader_after_all, 3);
    reveal_with_fuel(text_of_all, 3);
    let lock = seq![ReaderEvent::Done];
    let end = seq![ReaderEvent::Empty, ReaderEvent::Done];
    assert(lock.skip(1) =~= Seq::<ReaderEvent>::empty());
    assert(end.skip(1).skip(1) =~= Seq::<ReaderEvent>::empty());
    let start = ReaderStep::LockShard { shard };
    lemma_after_all_concat(num_shards, start, lock + read_events(records), end);
    lemma_after_all_concat(num_shards, start, lock, read_events(records));
    lemma_reads(num_shards, shard, records);
}

proof fn lemma_sweep(num_shards: usize, first: int, shards: Seq<Seq<Option<StackRecord>>>)
    requires
        0 <= first,
        first + shards.len() == num_shards,
    ensures
        reader_after_all(num_shards, shard_step(num_shards, first), sweep_events(shards)) == (
        ReaderStep::Wait { timeout_ms: WAIT_TIMEOUT_MS }),
        text_of_all(num_shards, shard_step(num_shards, first), sweep_events(shards))
            == shards_text(shards),
    decreases shards.len(),
{
    if shards.len() > 0 {
        lemma_after_all_concat(
            num_shards,
            shard_step(num_shards, first),
            drain_events(shards[0]),
            sweep_events(shards.skip(1)),
        );
        lemma_drain(num_shards, first as usize, shards[0]);
        lemma_sweep(num_shards, first + 1, shards.skip(1));
    }
}

/// After each wait, also one that timed out or failed, the reader drains every shard, the first
/// one first, until its queue is empty, and then waits again. It prints every record that could
/// be parsed, in that order, and nothing else.
pub proof fn law_sweep_drains_every_shard(
    num_shards: usize,
    shards: Seq<Seq<Option<StackRecord>>>,
    timeout_ms: i32,
    waited: ReaderEvent,
)
    requires
        shards.len() == num_shards,
        waited is Done || waited is Failed,
    ensures
        reader_after_all(
            num_shards,
            ReaderStep::Wait { timeout_ms },
            seq![waited] + sweep_events(shards),
        ) == (ReaderStep::Wait { timeout_ms: WAIT_TIMEOUT_MS }),
        text_of_all(
            num_shards,
            ReaderStep::Wait { timeout_ms },
            seq![waited] + sweep_events(shards),
        ) == shards_text(shards),
{
    let wake = seq![waited];
    let start = ReaderStep::Wait { timeout_ms };
    lemma_after_all_concat(num_shards, start, wake, sweep_events(shards));
    assert(wake.skip(1) =~= Seq::<ReaderEvent>::empty());
    reveal_with_fuel(reader_after_all, 2);
    reveal_with_fuel(text_of_all, 2);
    lemma_sweep(num_shards, 0, shards);
}

/// `text` consists of digits of base 16 that write `v`.
pub open spec fn writes_number(text: Seq<u8>, v: int) -> bool {
    &&& text.len() > 0
    &&& forall|i: int| 0 <= i < text.len() ==> digit(#[trigger] text[i]) < 16
    &&& digits_value(text, 16) == v
}

/// The digits that are printed for a frame read back as its place and its fields, whole.
pub proof fn law_frame_is_printed(index: int, frame: StackFrame)
    requires
        0 <= index,
    ensures
        ({
            let text = frame_text(index, frame);
            &&& text.len() == 8
            &&& text[0] == encode_utf8("  reader: ["@)
            &&& writes_number(text[1], index)
            &&& text[2] == encode_utf8("] code=0x"@)
            &&& writes_number(text[3], frame.code_object as int)
            &&& text[4] == encode_utf8(" instr=0x"@)
            &&& writes_number(text[5], frame.instr_offset as int)
            &&& text[6].len() == 0
            &&& text[7] == seq![10u8]
        }),
{
    law_hex_digits(index as nat);
    law_hex_digits(frame.code_object as nat);
    law_hex_digits(frame.instr_offset as nat);
    reveal_strlit("");
    assert(""@ =~= Seq::<char>::empty());
}

proof fn lemma_frames_text(frames: Seq<StackFrame>, i: int)
    ensures
        frames_text(frames).len() == 8 * frames.len(),
        0 <= i < frames.len() ==> frames_text(frames).subrange(8 * i, 8 * i + 8) == frame_text(
            i,
            frames[i],
        ),
    decreases frames.len(),
{
    if frames.len() > 0 {
        let n = frames.len() - 1;
        let front = frames_text(frames.drop_last());
        lemma_frames_text(frames.drop_last(), i);
        let all = frames_text(frames);
        assert(all == front + frame_text(n, frames.last()));
        if i == n {
            assert(all.subrange(8 * i, 8 * i + 8) =~= frame_text(n, frames.last()));
        } else if 0 <= i < n {
            assert(all.subrange(8 * i, 8 * i + 8) =~= front.subrange(8 * i, 8 * i + 8));
            assert(frames.drop_last()[i] == frames[i]);
        }
    }
}

/// What is printed of a record reads back as its thread, its depth and, for each frame in order,
/// the frame's place, code object and instruction offset, whole.
pub proof fn law_record_is_printed(record: StackRecord, i: int)
    ensures
        ({
            let text = record_text(record);
            &&& text.len() == 6 + 8 * record.frames@.len()
            &&& text[0] == encode_utf8("reader: tid="@)
            &&& writes_number(text[1], record.tid as int)
            &&& text[2] == encode_utf8(" depth="@)
            &&& writes_number(text[3], record.frames@.len() as int)
            &&& text[4].len() == 0
            &&& text[5] == seq![10u8]
            &&& 0 <= i < record.frames@.len() ==> {
                &&& text[6 + 8 * i] == encode_utf8("  reader: ["@)
                &&& writes_number(text[7 + 8 * i], i)
                &&& text[8 + 8 * i] == encode_utf8("] code=0x"@)
                &&& writes_number(text[9 + 8 * i], record.frames@[i].code_object as int)
                &&& text[10 + 8 * i] == encode_utf8(" instr=0x"@)
                &&& writes_number(text[11 + 8 * i], record.frames@[i].instr_offset as int)
                &&& text[12 + 8 * i].len() == 0
                &&& text[13 + 8 * i] == seq![10u8]
            }
        }),
{
    let frames = record.frames@;
    let text = record_text(record);
    law_hex_digits(record.tid as nat);
    law_hex_digits(frames.len());
    reveal_strlit("");
    assert(""@ =~= Seq::<char>::empty());
    lemma_frames_text(frames, i);
    if 0 <= i < frames.len() {
        law_frame_is_printed(i, frames[i]);
        let part = frames_text(frames).subrange(8 * i, 8 * i + 8);
        assert forall|k: int| 0 <= k < 8 implies text[6 + 8 * i + k] == #[trigger] part[k] by {
            assert(frames_text(frames)[8 * i + k] == part[k]);
        }
        assert(text[6 + 8 * i + 0] == part[0]);
        assert(text[6 + 8 * i + 1] == part[1]);
        assert(text[6 + 8 * i + 2] == part[2]);
        assert(text[6 + 8 * i + 3] == part[3]);
        assert(text[6 + 8 * i + 4] == part[4]);
        assert(text[6 + 8 * i + 5] == part[5]);
        assert(text[6 + 8 * i + 6] == part[6]);
        assert(text[6 + 8 * i + 7] == part[7]);
    }
}

/// Records of which the same is printed are of the same thread and have the same frames.
pub proof fn law_records_are_told_apart(a: StackRecord, b: StackRecord)
    requires
        record_text(a) == record_text(b),
    ensures
        a.tid == b.tid,
        a.frames@ == b.frames@,
{
    law_record_is_printed(a, 0);
    law_record_is_printed(b, 0);
    assert forall|i: int| 0 <= i < a.frames@.len() implies a.frames@[i] == b.frames@[i] by {
        law_record_is_printed(a, i);
        law_record_is_printed(b, i);
    }
    assert(a.frames@ =~= b.frames@);
}

/// Of everything that can come back only a record that was read and parsed is printed, and of it
/// all of it.
pub proof fn law_only_records_are_printed(step: ReaderStep, event: ReaderEvent)
    ensures
        step is ReadRecord && (event matches ReaderEvent::Record(Some(_))) ==> event_text(
            step,
            event,
        ) == record_text(event->Record_0->Some_0),
        !(step is ReadRecord && (event matches ReaderEvent::Record(Some(_)))) ==> event_text(
            step,
            event,
        ).len() == 0,
{
}

/// The reader takes the shards from the first to the last, stays with each until it is empty,
/// and waits 15 seconds at most before it starts over.
pub proof fn law_reader_goes_from_shard_to_shard(
    num_shards: usize,
    shard: usize,
    timeout_ms: i32,
    record: Option<StackRecord>,
)
    requires
        shard < num_shards,
    ensures
        reader_after(num_shards, ReaderStep::CreateSet, ReaderEvent::Done)
            == ReaderStep::AddEventFd,
        reader_after(num_shards, ReaderStep::AddEventFd, ReaderEvent::Done) == (ReaderStep::Wait {
            timeout_ms: 15000,
        }),
        reader_after(num_shards, ReaderStep::Wait { timeout_ms }, ReaderEvent::Done) == (
        ReaderStep::LockShard { shard: 0 }),
        reader_after(num_shards, ReaderStep::Wait { timeout_ms }, ReaderEvent::Failed) == (
        ReaderStep::LockShard { shard: 0 }),
        reader_after(num_shards, ReaderStep::LockShard { shard }, ReaderEvent::Done) == (
        ReaderStep::ReadRecord { shard }),
        reader_after(num_shards, ReaderStep::ReadRecord { shard }, ReaderEvent::Record(record))
            == (ReaderStep::Release { shard }),
        reader_after(num_shards, ReaderStep::Release { shard }, ReaderEvent::Done) == (
        ReaderStep::ReadRecord { shard }),
        reader_after(num_shards, ReaderStep::ReadRecord { shard }, ReaderEvent::Empty) == (
        ReaderStep::UnlockShard { shard }),
        shard + 1 < num_shards ==> reader_after(
            num_shards,
            ReaderStep::UnlockShard { shard },
            ReaderEvent::Done,
        ) == (ReaderStep::LockShard { shard: (shard + 1) as usize }),
        shard + 1 == num_shards ==> reader_after(
            num_shards,
            ReaderStep::UnlockShard { shard },
            ReaderEvent::Done,
        ) == (ReaderStep::Wait { timeout_ms: 15000 }),
{
}

/// The reader stops only where it cannot set up its waiting, and then for good.
pub proof fn law_reader_stops_only_at_its_setup(
    num_shards: usize,
    step: ReaderStep,
    event: ReaderEvent,
)
    ensures
        reader_after(num_shards, step, event) is Stopped <==> step is Stopped || (step is CreateSet
            || step is AddEventFd) && event is Failed,
{
}

} // verus!
