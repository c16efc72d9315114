use pyroscope_kit::debug::DebugOutput;
use pyroscope_kit::reader::{
    begin_reading, next_reader_step, print_record, ReaderEvent, ReaderStep, StackFrame, StackRecord,
};

fn record() -> StackRecord {
    StackRecord {
        tid: 0x2a,
        frames: vec![
            StackFrame { code_object: 0x7f00, instr_offset: 6 },
            StackFrame { code_object: 0xabc, instr_offset: 0 },
        ],
    }
}

const TEXT: &str = "reader: tid=2a depth=2\n  reader: [0] code=0x7f00 instr=0x6\n  reader: [1] code=0xabc instr=0x0\n";

#[test]
fn printed_record() {
    let mut out = DebugOutput::new(true);
    print_record(&mut out, &record());
    assert_eq!(out.pending.concat(), TEXT.as_bytes());
    assert_eq!(out.pending.len(), 6 + 2 * 8);
    let first: Vec<&[u8]> = vec![b"reader: tid=", b"2a", b" depth=", b"2", b"", b"\n", b"  reader: ["];
    assert_eq!(&out.pending[..7], first.as_slice());
}

#[test]
fn record_without_frames() {
    let mut out = DebugOutput::new(true);
    print_record(&mut out, &StackRecord { tid: 0, frames: vec![] });
    assert_eq!(out.pending.concat(), b"reader: tid=0 depth=0\n");
}

#[test]
fn disabled_reader_prints_nothing() {
    let mut out = DebugOutput::new(false);
    print_record(&mut out, &record());
    assert!(out.pending.is_empty());
}

#[test]
fn sweep_over_two_shards() {
    let mut out = DebugOutput::new(true);
    let mut step = begin_reading();
    let wait = ReaderStep::Wait { timeout_ms: 15_000 };
    let script = vec![
        (ReaderEvent::Done, ReaderStep::AddEventFd),
        (ReaderEvent::Done, wait),
        (ReaderEvent::Done, ReaderStep::LockShard { shard: 0 }),
        (ReaderEvent::Done, ReaderStep::ReadRecord { shard: 0 }),
        (ReaderEvent::Record(Some(record())), ReaderStep::Release { shard: 0 }),
        (ReaderEvent::Done, ReaderStep::ReadRecord { shard: 0 }),
        (ReaderEvent::Record(None), ReaderStep::Release { shard: 0 }),
        (ReaderEvent::Done, ReaderStep::ReadRecord { shard: 0 }),
        (ReaderEvent::Empty, ReaderStep::UnlockShard { shard: 0 }),
        (ReaderEvent::Done, ReaderStep::LockShard { shard: 1 }),
        (ReaderEvent::Done, ReaderStep::ReadRecord { shard: 1 }),
        (ReaderEvent::Empty, ReaderStep::UnlockShard { shard: 1 }),
        (ReaderEvent::Done, wait),
    ];
    for (event, expected) in script {
        step = next_reader_step(2, step, &event, &mut out);
        assert_eq!(step, expected);
    }
    assert_eq!(out.pending.concat(), TEXT.as_bytes());
}

#[test]
fn reader_that_cannot_wait_stops() {
    let mut out = DebugOutput::new(true);
    let stopped = next_reader_step(2, ReaderStep::CreateSet, &ReaderEvent::Failed, &mut out);
    assert_eq!(stopped, ReaderStep::Stopped);
    let stopped = next_reader_step(2, ReaderStep::AddEventFd, &ReaderEvent::Failed, &mut out);
    assert_eq!(stopped, ReaderStep::Stopped);
    let still = next_reader_step(2, stopped, &ReaderEvent::Done, &mut out);
    assert_eq!(still, ReaderStep::Stopped);
    assert!(out.pending.is_empty());
}

#[test]
fn wait_that_failed_is_followed_by_a_sweep() {
    let mut out = DebugOutput::new(true);
    let wait = ReaderStep::Wait { timeout_ms: 15_000 };
    let after_failure = next_reader_step(2, wait, &ReaderEvent::Failed, &mut out);
    assert_eq!(after_failure, ReaderStep::LockShard { shard: 0 });
    assert_eq!(next_reader_step(2, wait, &ReaderEvent::Done, &mut out), after_failure);
}

#[test]
fn reader_without_shards_waits_on() {
    let mut out = DebugOutput::new(false);
    let wait = ReaderStep::Wait { timeout_ms: 15_000 };
    assert_eq!(next_reader_step(0, wait, &ReaderEvent::Done, &mut out), wait);
}
