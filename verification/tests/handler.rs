use pyroscope_kit::handler::{begin_sample, next_for_sample, HandlerConfig, Reply, Sample};
use pyroscope_kit::lifecycle::Config;

const CONFIG: HandlerConfig = HandlerConfig { tls_offset: 0x10, num_shards: 4, notify_interval: 32 };

fn run(replies: &[Reply]) -> Sample {
    let mut sample = begin_sample();
    for reply in replies {
        sample = next_for_sample(&CONFIG, sample, *reply);
    }
    sample
}

#[test]
fn whole_sample() {
    let replies = [
        Reply::Word(0x1000),
        Reply::Word(0x5000),
        Reply::ThreadId(6),
        Reply::Locked,
        Reply::Depth(12),
        Reply::Written,
        Reply::Counted(64),
        Reply::Notified,
    ];
    let expected = [
        Sample::ReadFsBase,
        Sample::ReadThreadState { addr: 0x1010 },
        Sample::GetThreadId { tstate: 0x5000 },
        Sample::TryLock { tstate: 0x5000, tid: 6, attempt: 0, shard: 2 },
        Sample::Unwind { tstate: 0x5000, tid: 6, shard: 2 },
        Sample::Write { tid: 6, shard: 2, depth: 12 },
        Sample::Count,
        Sample::Notify,
        Sample::Finished,
    ];
    for n in 0..=replies.len() {
        assert_eq!(run(&replies[..n]), expected[n]);
    }
}

#[test]
fn thread_pointer_wraps_around() {
    assert_eq!(run(&[Reply::Word(u64::MAX)]), Sample::ReadThreadState { addr: 0xf });
}

#[test]
fn contended_shards() {
    let start = [Reply::Word(1), Reply::Word(2), Reply::ThreadId(7)];
    let with = |more: &[Reply]| run(&[start.as_slice(), more].concat());
    assert_eq!(with(&[]), Sample::TryLock { tstate: 2, tid: 7, attempt: 0, shard: 3 });
    assert_eq!(
        with(&[Reply::Contended]),
        Sample::TryLock { tstate: 2, tid: 7, attempt: 1, shard: 0 }
    );
    assert_eq!(
        with(&[Reply::Contended, Reply::Contended]),
        Sample::TryLock { tstate: 2, tid: 7, attempt: 2, shard: 1 }
    );
    assert_eq!(with(&[Reply::Contended, Reply::Contended, Reply::Contended]), Sample::Finished);
    assert_eq!(
        with(&[Reply::Contended, Reply::Locked]),
        Sample::Unwind { tstate: 2, tid: 7, shard: 0 }
    );
}

#[test]
fn single_shard_is_tried_three_times() {
    let config = HandlerConfig { tls_offset: 0, num_shards: 1, notify_interval: 1 };
    let mut sample = Sample::GetThreadId { tstate: 9 };
    sample = next_for_sample(&config, sample, Reply::ThreadId(usize::MAX));
    for attempt in 0..3 {
        assert_eq!(sample, Sample::TryLock { tstate: 9, tid: usize::MAX, attempt, shard: 0 });
        sample = next_for_sample(&config, sample, Reply::Contended);
    }
    assert_eq!(sample, Sample::Finished);
}

#[test]
fn what_ends_a_sample_early() {
    assert_eq!(run(&[Reply::Fault]), Sample::Finished);
    assert_eq!(run(&[Reply::Word(1), Reply::Fault]), Sample::Finished);
    assert_eq!(run(&[Reply::Word(1), Reply::Word(0)]), Sample::Finished);
    let unwound = [Reply::Word(1), Reply::Word(2), Reply::ThreadId(3), Reply::Locked];
    assert_eq!(run(&[unwound.as_slice(), &[Reply::Depth(0)]].concat()), Sample::Finished);
    assert_eq!(
        run(&[unwound.as_slice(), &[Reply::Depth(1), Reply::NotWritten]].concat()),
        Sample::Finished
    );
}

#[test]
fn reader_is_woken_once_per_interval() {
    let woken: Vec<u32> = (0..100)
        .filter(|n| next_for_sample(&CONFIG, Sample::Count, Reply::Counted(*n)) == Sample::Notify)
        .collect();
    assert_eq!(woken, vec![0, 32, 64, 96]);
    assert_eq!(next_for_sample(&CONFIG, Sample::Count, Reply::Counted(u32::MAX)), Sample::Finished);
}

#[test]
fn finished_samples_stay_so() {
    for reply in [Reply::Word(1), Reply::Locked, Reply::Written, Reply::Counted(0), Reply::Notified] {
        assert_eq!(next_for_sample(&CONFIG, Sample::Finished, reply), Sample::Finished);
    }
}

#[test]
fn handler_takes_over_the_configuration() {
    let config = Config { num_shards: 5, notify_interval: 8, log_enabled: true };
    assert_eq!(
        HandlerConfig::new(&config, 0x77),
        HandlerConfig { tls_offset: 0x77, num_shards: 5, notify_interval: 8 }
    );
}
