//! Taking one sample: what the signal handler does next, given what came back of what it did
//! last. Nothing here allocates, so all of it can run in a signal handler.
use crate::lifecycle::{Config, DEFAULT_NOTIFY_INTERVAL};
use vstd::prelude::*;

verus! {

/// How many shards are tried before a sample is dropped.
pub const LOCK_ATTEMPTS: usize = 3;

/// What the handler has to know of the profiler.
#[derive(Debug, Clone, Copy, PartialEq, Eq, Structural)]
pub struct HandlerConfig {
    /// Where the current thread's state is kept, counted from the thread pointer.
    pub tls_offset: u64,
    pub num_shards: usize,
    pub notify_interval: u32,
}

impl HandlerConfig {
    /// There is a shard to lock, trying the next ones stays in the machine's range, and the
    /// interval is no zero.
    pub open spec fn wf(self) -> bool {
        &&& 1 <= self.num_shards < usize::MAX
        &&& self.notify_interval >= 1
    }

    /// The handler's part of a configuration.
    pub fn new(config: &Config, tls_offset: u64) -> (r: HandlerConfig)
        ensures
            r == (HandlerConfig {
                tls_offset,
                num_shards: config.num_shards,
                notify_interval: config.notify_interval,
            }),
            config.wf() ==> r.wf(),
    {
        HandlerConfig {
            tls_offset,
            num_shards: config.num_shards,
            notify_interval: config.notify_interval,
        }
    }
}

/// A sample under way, named by what has to be done next for it.
#[derive(Debug, Clone, Copy, PartialEq, Eq, Structural)]
pub enum Sample {
    /// Read the thread pointer.
    ReadFsBase,
    /// Read the word at `addr`, which points to the thread's state.
    ReadThreadState { addr: u64 },
    /// Ask for the thread's id.
    GetThreadId { tstate: u64 },
    /// Try to lock a shard.
    TryLock { tstate: u64, tid: usize, attempt: usize, shard: usize },
    /// Unwind the Python stack into the locked shard's buffer.
    Unwind { tstate: u64, tid: usize, shard: usize },
    /// Write the unwound frames into the locked shard's queue.
    Write { tid: usize, shard: usize, depth: usize },
    /// Add one to the count of samples.
    Count,
    /// Wake the reader.
    Notify,
    /// Nothing is left to do.
    Finished,
}

/// What came back.
#[derive(Debug, Clone, Copy, PartialEq, Eq, Structural)]
pub enum Reply {
    /// The word that was read.
    Word(u64),
    /// Memory could not be read.
    Fault,
    /// The thread's id.
    ThreadId(usize),
    /// The shard is locked now.
    Locked,
    /// Somebody else holds the shard.
    Contended,
    /// How many frames were unwound.
    Depth(usize),
    /// The frames are in the queue.
    Written,
    /// The queue had no room for them.
    NotWritten,
    /// The count of samples before this one.
    Counted(u32),
    /// The reader was woken.
    Notified,
}

/// The shard that the given attempt of a thread goes to: its own first, then the next ones.
pub open spec fn shard_of(tid: usize, attempt: int, num_shards: usize) -> int {
    (tid as int % num_shards as int + attempt) % num_shards as int
}

/// The reader is woken for the sample that came after `count` others.
pub open spec fn notifies(count: int, interval: u32) -> bool {
    count % interval as int == 0
}

/// What is left to do for a sample after a reply. What cannot be read, a thread without a
/// state, shards that are all held, an empty stack and a full queue each end the sample, and so
/// does a reply to something that was not asked for.
pub open spec fn sample_after(config: HandlerConfig, sample: Sample, reply: Reply) -> Sample {
    match (sample, reply) {
        (Sample::ReadFsBase, Reply::Word(fs_base)) => Sample::ReadThreadState {
            addr: ((fs_base + config.tls_offset) % 0x1_0000_0000_0000_0000) as u64,
        },
        (Sample::ReadThreadState { .. }, Reply::Word(tstate)) => if tstate == 0 {
            Sample::Finished
        } else {
            Sample::GetThreadId { tstate }
        },
        (Sample::GetThreadId { tstate }, Reply::ThreadId(tid)) => Sample::TryLock {
            tstate,
            tid,
            attempt: 0,
            shard: shard_of(tid, 0, config.num_shards) as usize,
        },
        (Sample::TryLock { tstate, tid, shard, .. }, Reply::Locked) => Sample::Unwind {
            tstate,
            tid,
            shard,
        },
        (Sample::TryLock { tstate, tid, attempt, .. }, Reply::Contended) => if attempt + 1
            < LOCK_ATTEMPTS {
            Sample::TryLock {
                tstate,
                tid,
                attempt: (attempt + 1) as usize,
                shard: shard_of(tid, attempt + 1, config.num_shards) as usize,
            }
        } else {
            Sample::Finished
        },
        (Sample::Unwind { tid, shard, .. }, Reply::Depth(depth)) => if depth == 0 {
            Sample::Finished
        } else {
            Sample::Write { tid, shard, depth }
        },
        (Sample::Write { .. }, Reply::Written) => Sample::Count,
        (Sample::Count, Reply::Counted(count)) => if notifies(
            count as int,
            config.notify_interval,
        ) {
            Sample::Notify
        } else {
            Sample::Finished
        },
        _ => Sample::Finished,
    }
}

/// Begins a sample.
pub fn begin_sample() -> (r: Sample)
    ensures
        r == Sample::ReadFsBase,
{
    Sample::ReadFsBase
}

/// Says what to do next for a sample.
pub fn next_for_sample(config: &HandlerConfig, sample: Sample, reply: Reply) -> (r: Sample)
    requires
        config.wf(),
    ensures
        r == sample_after(*config, sample, reply),
{
    let n: usize = config.num_shards;
    match (sample, reply) {
        (Sample::ReadFsBase, Reply::Word(fs_base)) => {
            Sample::ReadThreadState { addr: fs_base.wrapping_add(config.tls_offset) }
        },
        (Sample::ReadThreadState { addr: _ }, Reply::Word(tstate)) => {
            if tstate == 0 {
                Sample::Finished
            } else {
                Sample::GetThreadId { tstate }
            }
        },
        (Sample::GetThreadId { tstate }, Reply::ThreadId(tid)) => {
            Sample::TryLock { tstate, tid, attempt: 0, shard: tid % n % n }
        },
        (Sample::TryLock { tstate, tid, attempt: _, shard }, Reply::Locked) => {
            Sample::Unwind { tstate, tid, shard }
        },
        (Sample::TryLock { tstate, tid, attempt, shard: _ }, Reply::Contended) => {
            if attempt < LOCK_ATTEMPTS - 1 {
                Sample::TryLock {
                    tstate,
                    tid,
                    attempt: attempt + 1,
                    shard: (tid % n + (attempt + 1)) % n,
                }
            } else {
                Sample::Finished
            }
        },
        (Sample::Unwind { tstate: _, tid, shard }, Reply::Depth(depth)) => {
            if depth == 0 {
                Sample::Finished
            } else {
                Sample::Write { tid, shard, depth }
            }
        },
        (Sample::Write { tid: _, shard: _, depth: _ }, Reply::Written) => Sample::Count,
        (Sample::Count, Reply::Counted(count)) => {
            if count % config.notify_interval == 0 {
                Sample::Notify
            } else {
                Sample::Finished
            }
        },
        _ => Sample::Finished,
    }
}

/// A sample after all of `replies`, one after the other.
pub open spec fn sample_after_all(
    config: HandlerConfig,
    sample: Sample,
    replies: Seq<Reply>,
) -> Sample
    decreases replies.len(),
{
    if replies.len() == 0 {
        sample
    } else {
        sample_after_all(config, sample_after(config, sample, replies[0]), replies.skip(1))
    }
}

/// An upper bound on the replies that a sample still waits for.
pub open spec fn replies_left(sample: Sample) -> int {
    match sample {
        Sample::ReadFsBase => 10,
        Sample::ReadThreadState { .. } => 9,
        Sample::GetThreadId { .. } => 8,
        Sample::TryLock { attempt, .. } => if attempt < LOCK_ATTEMPTS {
            7 - attempt
        } else {
            5
        },
        Sample::Unwind { .. } => 4,
        Sample::Write { .. } => 3,
        Sample::Count => 2,
        Sample::Notify => 1,
        Sample::Finished => 0,
    }
}

/// A sample that is finished stays so.
pub proof fn law_finished_stays(config: HandlerConfig, replies: Seq<Reply>)
    ensures
        sample_after_all(config, Sample::Finished, replies) == Sample::Finished,
    decreases replies.len(),
{
    if replies.len() > 0 {
        law_finished_stays(config, replies.skip(1));
    }
}

proof fn lemma_sample_ends(config: HandlerConfig, sample: Sample, replies: Seq<Reply>)
    requires
        replies.len() >= replies_left(sample),
    ensures
        sample_after_all(config, sample, replies) == Sample::Finished,
    decreases replies.len(),
{
    if sample == Sample::Finished {
        law_finished_stays(config, replies);
    } else {
        lemma_sample_ends(config, sample_after(config, sample, replies[0]), replies.skip(1));
    }
}

/// Whatever comes back, a sample is over after ten replies: the handler's work is bounded.
pub proof fn law_sample_is_bounded(config: HandlerConfig, replies: Seq<Reply>)
    requires
        replies.len() >= 10,
    ensures
        sample_after_all(config, Sample::ReadFsBase, replies) == Sample::Finished,
{
    lemma_sample_ends(config, Sample::ReadFsBase, replies);
}

/// Every attempt goes to a shard that exists, the first to the thread's own, and two attempts
/// go to different shards as long as there are that many.
pub proof fn law_shards_of_a_thread(num_shards: usize, tid: usize, a: int, b: int)
    requires
        num_shards >= 1,
        0 <= a < b,
    ensures
        0 <= shard_of(tid, a, num_shards) < num_shards,
        shard_of(tid, 0, num_shards) == tid as int % num_shards as int,
        b < num_shards ==> shard_of(tid, a, num_shards) != shard_of(tid, b, num_shards),
{
    let n = num_shards as int;
    let base = tid as int % n;
    assert(0 <= base < n);
    assert(0 <= (base + a) % n < n);
    assert(base % n == base) by {
        vstd::arithmetic::div_mod::lemma_small_mod(base as nat, n as nat);
    }
    if b < n {
        assert((base + a) % n == if base + a < n {
            base + a
        } else {
            base + a - n
        }) by {
            lemma_mod_once(base + a, n);
        }
        assert((base + b) % n == if base + b < n {
            base + b
        } else {
            base + b - n
        }) by {
            lemma_mod_once(base + b, n);
        }
    }
}

proof fn lemma_mod_once(x: int, n: int)
    requires
        0 <= x < 2 * n,
    ensures
        x % n == if x < n {
            x
        } else {
            x - n
        },
{
    if x < n {
        vstd::arithmetic::div_mod::lemma_small_mod(x as nat, n as nat);
    } else {
        vstd::arithmetic::div_mod::lemma_small_mod((x - n) as nat, n as nat);
        vstd::arithmetic::div_mod::lemma_mod_add_multiples_vanish(x - n, n);
    }
}

/// A thread whose shards are held tries three of them, its own and the two behind it, and then
/// drops the sample.
pub proof fn law_contended_sample_is_dropped(config: HandlerConfig, tstate: u64, tid: usize)
    ensures
        ({
            let n = config.num_shards;
            let s0 = sample_after(config, Sample::GetThreadId { tstate }, Reply::ThreadId(tid));
            let s1 = sample_after(config, s0, Reply::Contended);
            let s2 = sample_after(config, s1, Reply::Contended);
            &&& s0 == Sample::TryLock {
                tstate,
                tid,
                attempt: 0,
                shard: shard_of(tid, 0, n) as usize,
            }
            &&& s1 == Sample::TryLock {
                tstate,
                tid,
                attempt: 1,
                shard: shard_of(tid, 1, n) as usize,
            }
            &&& s2 == Sample::TryLock {
                tstate,
                tid,
                attempt: 2,
                shard: shard_of(tid, 2, n) as usize,
            }
            &&& sample_after(config, s2, Reply::Contended) == Sample::Finished
        }),
{
}

/// Nothing but the whole chain of successes wakes the reader: a thread with a state, a shard
/// that could be locked, a stack that is not empty, frames that are in the queue, and a count
/// that is due.
pub proof fn law_notified_only_after_a_write(config: HandlerConfig, sample: Sample, reply: Reply)
    ensures
        sample_after(config, sample, reply) == Sample::Notify <==> sample == Sample::Count && (
        reply matches Reply::Counted(count) && notifies(count as int, config.notify_interval)),
        sample_after(config, sample, reply) == Sample::Count <==> sample is Write && reply
            == Reply::Written,
        sample_after(config, sample, reply) is Write <==> sample is Unwind && (
        reply matches Reply::Depth(depth) && depth > 0),
        sample_after(config, sample, reply) is Unwind <==> sample is TryLock && reply
            == Reply::Locked,
        sample_after(config, sample, reply) is GetThreadId <==> sample is ReadThreadState && (
        reply matches Reply::Word(tstate) && tstate != 0),
{
}

/// Of any `interval` samples in a row exactly one wakes the reader, and the first sample of all
/// does.
pub proof fn law_notified_once_per_interval(first: int, interval: u32) -> (k: int)
    requires
        first >= 0,
        interval >= 1,
    ensures
        notifies(0, interval),
        first <= k < first + interval,
        notifies(k, interval),
        forall|j: int| first <= j < first + interval && notifies(j, interval) ==> j == k,
{
    let n = interval as int;
    let r = first % n;
    let k = if r == 0 {
        first
    } else {
        first + n - r
    };
    assert(0int % n == 0) by (nonlinear_arith)
        requires
            n >= 1,
    ;
    assert(k % n == 0) by (nonlinear_arith)
        requires
            n >= 1,
            r == first % n,
            k == if r == 0 {
                first
            } else {
                first + n - r
            },
    ;
    assert forall|j: int| first <= j < first + n && notifies(j, interval) implies j == k by {
        assert(j == k) by (nonlinear_arith)
            requires
                n >= 1,
                j % n == 0,
                k % n == 0,
                first <= j < first + n,
                first <= k < first + n,
        ;
    }
    k
}

/// The count is kept in 32 bits and wraps around. With an interval that divides 2 to the 32nd,
/// as the default does, the wrapped count is due exactly when the true one is.
pub proof fn law_wrapped_count_is_due_alike(count: nat, interval: u32)
    requires
        interval >= 1,
        0x1_0000_0000int % interval as int == 0,
    ensures
        notifies((count % 0x1_0000_0000) as int, interval) == notifies(count as int, interval),
        0x1_0000_0000int % DEFAULT_NOTIFY_INTERVAL as int == 0,
{
    let m = 0x1_0000_0000int;
    let n = interval as int;
    assert((count as int % m) % n == count as int % n) by (nonlinear_arith)
        requires
            n >= 1,
            m == 0x1_0000_0000int,
            m % n == 0,
    {
        let q = count as int / m;
        let d = m / n;
        assert(m == n * d);
        assert(count as int == m * q + count as int % m);
        assert(count as int == n * (d * q) + count as int % m);
        vstd::arithmetic::div_mod::lemma_mod_multiples_vanish(d * q, count as int % m, n);
    }
}

/// The thread's state is read at the thread pointer plus the whole offset, up to a multiple of 2
/// to the 64th: an offset that stands for a negative number leads below the thread pointer, one
/// that does not wrap around above it.
pub proof fn law_thread_state_is_at_the_offset(config: HandlerConfig, fs_base: u64, below: u64)
    ensures
        sample_after(config, Sample::ReadFsBase, Reply::Word(fs_base)) matches
            Sample::ReadThreadState { addr } && {
            &&& (addr - fs_base - config.tls_offset) % 0x1_0000_0000_0000_0000 == 0
            &&& 0 < below <= fs_base && config.tls_offset == 0x1_0000_0000_0000_0000 - below
                ==> addr == fs_base - below
            &&& fs_base + config.tls_offset <= u64::MAX ==> addr == fs_base + config.tls_offset
        },
{
}

/// What a sample learns it keeps: the thread state and the thread that were asked for are the
/// ones that are unwound and written, in the shard that could be locked, with the depth that
/// unwinding gave.
pub proof fn law_sample_keeps_what_it_learns(
    config: HandlerConfig,
    addr: u64,
    tstate: u64,
    tid: usize,
    attempt: usize,
    shard: usize,
    depth: usize,
)
    requires
        tstate != 0,
        depth > 0,
        config.num_shards >= 1,
    ensures
        sample_after(config, Sample::ReadThreadState { addr }, Reply::Word(tstate))
            == (Sample::GetThreadId { tstate }),
        sample_after(config, Sample::GetThreadId { tstate }, Reply::ThreadId(tid)) matches
            Sample::TryLock { tstate: ts, tid: t, attempt: a, shard: s } && {
            &&& ts == tstate && t == tid && a == 0
            &&& s == tid as int % config.num_shards as int
        },
        sample_after(config, Sample::TryLock { tstate, tid, attempt, shard }, Reply::Locked)
            == (Sample::Unwind { tstate, tid, shard }),
        sample_after(config, Sample::Unwind { tstate, tid, shard }, Reply::Depth(depth))
            == (Sample::Write { tid, shard, depth }),
        sample_after(config, Sample::Write { tid, shard, depth }, Reply::Written) == Sample::Count,
{
    let n = config.num_shards as int;
    vstd::arithmetic::div_mod::lemma_small_mod((tid as int % n) as nat, n as nat);
}

/// After the first and the second shard that somebody else holds, the shard behind it is tried,
/// the first one again behind the last; after the third, the sample is dropped.
pub proof fn law_next_shard_is_tried(
    config: HandlerConfig,
    tstate: u64,
    tid: usize,
    attempt: usize,
    shard: usize,
)
    requires
        config.num_shards >= 1,
    ensures
        attempt < 2 ==> (sample_after(
            config,
            Sample::TryLock { tstate, tid, attempt, shard },
            Reply::Contended,
        ) matches Sample::TryLock { tstate: ts, tid: t, attempt: a, shard: s } && {
            &&& ts == tstate && t == tid && a == attempt + 1
            &&& s == (tid + attempt + 1) % config.num_shards as int
        }),
        attempt >= 2 ==> sample_after(
            config,
            Sample::TryLock { tstate, tid, attempt, shard },
            Reply::Contended,
        ) == Sample::Finished,
{
    let n = config.num_shards as int;
    vstd::arithmetic::div_mod::lemma_add_mod_noop_right(attempt + 1, tid as int, n);
    assert(0 <= (tid as int % n + attempt + 1) % n < n);
}

/// The reader is woken for a sample exactly where the number of samples before it is a multiple
/// of the interval.
pub proof fn law_woken_at_multiples(config: HandlerConfig, count: u32, k: int)
    requires
        config.notify_interval >= 1,
    ensures
        count == k * config.notify_interval ==> sample_after(
            config,
            Sample::Count,
            Reply::Counted(count),
        ) == Sample::Notify,
        k * config.notify_interval < count < (k + 1) * config.notify_interval ==> sample_after(
            config,
            Sample::Count,
            Reply::Counted(count),
        ) == Sample::Finished,
{
    let n = config.notify_interval as int;
    let c = count as int;
    if c == k * n {
        assert(c % n == 0) by (nonlinear_arith)
            requires
                c == k * n,
                n >= 1,
        ;
    }
    if k * n < c < (k + 1) * n {
        assert(c % n != 0) by (nonlinear_arith)
            requires
                k * n < c,
                c < (k + 1) * n,
                n >= 1,
        ;
    }
}

/// Whatever could not be done ends the sample, and so does a thread without a state and a stack
/// without frames.
pub proof fn law_failures_end_a_sample(config: HandlerConfig, sample: Sample)
    ensures
        sample_after(config, sample, Reply::Fault) == Sample::Finished,
        sample_after(config, sample, Reply::NotWritten) == Sample::Finished,
        sample_after(config, sample, Reply::Notified) == Sample::Finished,
        sample is ReadThreadState ==> sample_after(config, sample, Reply::Word(0))
            == Sample::Finished,
        sample is Unwind ==> sample_after(config, sample, Reply::Depth(0)) == Sample::Finished,
{
}

/// Memory is read for the thread's state, and a shard is locked, only in answer to what was asked
/// for before.
pub proof fn law_nothing_is_done_unasked(config: HandlerConfig, sample: Sample, reply: Reply)
    ensures
        sample_after(config, sample, reply) is ReadThreadState <==> sample is ReadFsBase
            && reply is Word,
        sample_after(config, sample, reply) is TryLock ==> sample is GetThreadId && reply is ThreadId
            || sample is TryLock && reply is Contended,
        !(sample_after(config, sample, reply) is ReadFsBase),
{
}

} // verus!
