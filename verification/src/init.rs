//! Preparing the profiler: which step comes next, given how the last one went.
use crate::debug::{line_feed, puts, DebugOutput};
use crate::elf::ElfSymbols;
use crate::errors::{init_error_code, map_init_error, InitError};
use crate::handler::{notifies, HandlerConfig};
use crate::lifecycle::Config;
use crate::maps::PythonBinary;
use vstd::prelude::*;
use vstd::utf8::encode_utf8;

verus! {

/// The code for a failed installation of crash recovery.
pub const CODE_RECOVERY: i32 = 1;

/// The code for a queue, an event descriptor or a thread that could not be had.
pub const CODE_RESOURCES: i32 = 7;

/// The code for a signal handler that could not be installed.
pub const CODE_HANDLER: i32 = 8;

/// The next step, with what it works on.
pub enum InitStep {
    /// Install the recovery from faults in memory reads.
    InstallRecovery,
    /// Find the interpreter among the process's mappings.
    FindPython,
    /// Find the interpreter's symbols in its binary.
    ResolveSymbols { binary: PythonBinary },
    /// Detect the version at `symbols.py_version_addr` and see whether it is supported.
    DetectVersion { binary: PythonBinary, symbols: ElfSymbols },
    /// Read the raw version number at `symbols.py_version_addr`.
    ReadVersionHex { binary: PythonBinary, symbols: ElfSymbols },
    /// Read the debug offsets of that version at `symbols.py_runtime_addr`.
    ReadDebugOffsets { binary: PythonBinary, symbols: ElfSymbols, version_hex: u64 },
    /// Find the thread-local slot of the current thread's state.
    FindTlsOffset { binary: PythonBinary },
    /// Allocate the queue of one shard and split it into its two ends.
    SplitRing { tls_offset: u64, shard: usize },
    /// Create the event descriptor that wakes the reader.
    CreateEventFd { tls_offset: u64 },
    /// Make the shards, each with the writing end of its own queue, and hand them to the signal
    /// handler, with the count of samples at `count`.
    PublishState { handler: HandlerConfig, count: u32 },
    /// Start the reader.
    SpawnReader,
    /// Install the signal handler and start its timer.
    InstallHandler,
    /// The profiler is prepared.
    Ready,
    /// A step failed.
    Failed { code: i32 },
}

/// How a step went.
pub enum InitOutcome {
    /// It went well and has no result that the next steps need.
    Done,
    Python(PythonBinary),
    Symbols(ElfSymbols),
    VersionHex(u64),
    TlsOffset(u64),
    /// It failed with this error.
    InitFailed(InitError),
    /// It failed in a way that only the step tells.
    StepFailed,
}

/// The step with which the queues begin.
pub open spec fn first_ring(config: Config, tls_offset: u64) -> InitStep {
    if config.num_shards == 0 {
        InitStep::CreateEventFd { tls_offset }
    } else {
        InitStep::SplitRing { tls_offset, shard: 0 }
    }
}

/// A step that reports its failures as an [`InitError`].
pub open spec fn reports_init_error(step: InitStep) -> bool {
    ||| step is FindPython
    ||| step is ResolveSymbols
    ||| step is DetectVersion
    ||| step is ReadVersionHex
    ||| step is ReadDebugOffsets
    ||| step is FindTlsOffset
}

/// The code of a step whose failures carry no error of their own.
pub open spec fn step_code(step: InitStep) -> Option<i32> {
    match step {
        InitStep::InstallRecovery => Some(CODE_RECOVERY),
        InitStep::SplitRing { .. } | InitStep::CreateEventFd { .. } | InitStep::SpawnReader => Some(
            CODE_RESOURCES,
        ),
        InitStep::InstallHandler => Some(CODE_HANDLER),
        _ => None,
    }
}

/// The step after `step`, which went as `outcome` says. An outcome that no run of the step has
/// leaves it to be done.
pub open spec fn init_after(config: Config, step: InitStep, outcome: InitOutcome) -> InitStep {
    match (step, outcome) {
        (InitStep::InstallRecovery, InitOutcome::Done) => InitStep::FindPython,
        (InitStep::FindPython, InitOutcome::Python(binary)) => InitStep::ResolveSymbols { binary },
        (
            InitStep::ResolveSymbols { binary },
            InitOutcome::Symbols(symbols),
        ) => InitStep::DetectVersion { binary, symbols },
        (
            InitStep::DetectVersion { binary, symbols },
            InitOutcome::Done,
        ) => InitStep::ReadVersionHex { binary, symbols },
        (
            InitStep::ReadVersionHex { binary, symbols },
            InitOutcome::VersionHex(version_hex),
        ) => InitStep::ReadDebugOffsets { binary, symbols, version_hex },
        (
            InitStep::ReadDebugOffsets { binary, .. },
            InitOutcome::Done,
        ) => InitStep::FindTlsOffset { binary },
        (InitStep::FindTlsOffset { .. }, InitOutcome::TlsOffset(tls_offset)) => first_ring(
            config,
            tls_offset,
        ),
        (InitStep::SplitRing { tls_offset, shard }, InitOutcome::Done) => if shard + 1
            < config.num_shards {
            InitStep::SplitRing { tls_offset, shard: (shard + 1) as usize }
        } else {
            InitStep::CreateEventFd { tls_offset }
        },
        (InitStep::CreateEventFd { tls_offset }, InitOutcome::Done) => InitStep::PublishState {
            handler: HandlerConfig {
                tls_offset,
                num_shards: config.num_shards,
                notify_interval: config.notify_interval,
            },
            count: 0,
        },
        (InitStep::PublishState { .. }, InitOutcome::Done) => InitStep::SpawnReader,
        (InitStep::SpawnReader, InitOutcome::Done) => InitStep::InstallHandler,
        (InitStep::InstallHandler, InitOutcome::Done) => InitStep::Ready,
        (step, InitOutcome::InitFailed(e)) => if reports_init_error(step) {
            InitStep::Failed { code: init_error_code(e) }
        } else {
            step
        },
        (step, InitOutcome::StepFailed) => match step_code(step) {
            Some(code) => InitStep::Failed { code },
            None => step,
        },
        (step, _) => step,
    }
}

/// The first step.
pub fn begin_init() -> (r: InitStep)
    ensures
        r == InitStep::InstallRecovery,
{
    InitStep::InstallRecovery
}

fn after_init_error(step: InitStep, e: InitError) -> (r: InitStep)
    ensures
        r == if reports_init_error(step) {
            InitStep::Failed { code: init_error_code(e) }
        } else {
            step
        },
{
    match step {
        InitStep::FindPython
        | InitStep::ResolveSymbols { .. }
        | InitStep::DetectVersion { .. }
        | InitStep::ReadVersionHex { .. }
        | InitStep::ReadDebugOffsets { .. }
        | InitStep::FindTlsOffset { .. } => InitStep::Failed { code: map_init_error(&e) },
        other => other,
    }
}

fn after_failure(step: InitStep) -> (r: InitStep)
    ensures
        r == match step_code(step) {
            Some(code) => InitStep::Failed { code },
            None => step,
        },
{
    match step {
        InitStep::InstallRecovery => InitStep::Failed { code: CODE_RECOVERY },
        InitStep::SplitRing { .. } => InitStep::Failed { code: CODE_RESOURCES },
        InitStep::CreateEventFd { .. } => InitStep::Failed { code: CODE_RESOURCES },
        InitStep::SpawnReader => InitStep::Failed { code: CODE_RESOURCES },
        InitStep::InstallHandler => InitStep::Failed { code: CODE_HANDLER },
        other => other,
    }
}

/// What is printed when `step` went as `outcome` says.
pub open spec fn init_text(step: InitStep, outcome: InitOutcome) -> Seq<Seq<u8>> {
    if step is InstallHandler && outcome is Done {
        seq![encode_utf8("pyroscope_cpython: init complete"@), line_feed()]
    } else {
        Seq::empty()
    }
}

/// Says which step comes after `step`, which went as `outcome` says, and prints a message when
/// the last one is done.
pub fn next_init_step(
    config: &Config,
    step: InitStep,
    outcome: InitOutcome,
    out: &mut DebugOutput,
) -> (r: InitStep)
    ensures
        r == init_after(*config, step, outcome),
        final(out).enabled == old(out).enabled,
        final(out)@ == old(out).plus(init_text(step, outcome)),
{
    assert(out@ =~= old(out).plus(Seq::<Seq<u8>>::empty()));
    match (step, outcome) {
        (InitStep::InstallRecovery, InitOutcome::Done) => InitStep::FindPython,
        (InitStep::FindPython, InitOutcome::Python(binary)) => InitStep::ResolveSymbols { binary },
        (InitStep::ResolveSymbols { binary }, InitOutcome::Symbols(symbols)) => {
            InitStep::DetectVersion { binary, symbols }
        },
        (InitStep::DetectVersion { binary, symbols }, InitOutcome::Done) => {
            InitStep::ReadVersionHex { binary, symbols }
        },
        (InitStep::ReadVersionHex { binary, symbols }, InitOutcome::VersionHex(version_hex)) => {
            InitStep::ReadDebugOffsets { binary, symbols, version_hex }
        },
        (InitStep::ReadDebugOffsets { binary, .. }, InitOutcome::Done) => {
            InitStep::FindTlsOffset { binary }
        },
        (InitStep::FindTlsOffset { .. }, InitOutcome::TlsOffset(tls_offset)) => {
            if config.num_shards == 0 {
                InitStep::CreateEventFd { tls_offset }
            } else {
                InitStep::SplitRing { tls_offset, shard: 0 }
            }
        },
        (InitStep::SplitRing { tls_offset, shard }, InitOutcome::Done) => {
            if shard < config.num_shards && config.num_shards - shard > 1 {
                InitStep::SplitRing { tls_offset, shard: shard + 1 }
            } else {
                InitStep::CreateEventFd { tls_offset }
            }
        },
        (InitStep::CreateEventFd { tls_offset }, InitOutcome::Done) => {
            InitStep::PublishState { handler: HandlerConfig::new(config, tls_offset), count: 0 }
        },
        (InitStep::PublishState { .. }, InitOutcome::Done) => InitStep::SpawnReader,
        (InitStep::SpawnReader, InitOutcome::Done) => InitStep::InstallHandler,
        (InitStep::InstallHandler, InitOutcome::Done) => {
            puts(out, "pyroscope_cpython: init complete");
            InitStep::Ready
        },
        (step, InitOutcome::InitFailed(e)) => after_init_error(step, e),
        (step, InitOutcome::StepFailed) => after_failure(step),
        (step, _) => step,
    }
}

/// The step after all of `outcomes`, one after the other.
pub open spec fn init_after_all(
    config: Config,
    step: InitStep,
    outcomes: Seq<InitOutcome>,
) -> InitStep
    decreases outcomes.len(),
{
    if outcomes.len() == 0 {
        step
    } else {
        init_after(
            config,
            init_after_all(config, step, outcomes.drop_last()),
            outcomes.last(),
        )
    }
}

/// How many steps come before a step, where none fails. Each shard's queue is a step.
pub open spec fn steps_before(config: Config, step: InitStep) -> int {
    let rings = config.num_shards as int;
    match step {
        InitStep::InstallRecovery => 0,
        InitStep::FindPython => 1,
        InitStep::ResolveSymbols { .. } => 2,
        InitStep::DetectVersion { .. } => 3,
        InitStep::ReadVersionHex { .. } => 4,
        InitStep::ReadDebugOffsets { .. } => 5,
        InitStep::FindTlsOffset { .. } => 6,
        InitStep::SplitRing { shard, .. } => 7 + shard,
        InitStep::CreateEventFd { .. } => 7 + rings,
        InitStep::PublishState { .. } => 8 + rings,
        InitStep::SpawnReader => 9 + rings,
        InitStep::InstallHandler => 10 + rings,
        InitStep::Ready => 11 + rings,
        InitStep::Failed { .. } => -1,
    }
}

/// A queue that is to be split belongs to one of the shards.
pub open spec fn step_ok(config: Config, step: InitStep) -> bool {
    step matches InitStep::SplitRing { shard, .. } ==> shard < config.num_shards
}

/// The preparation goes through its steps one by one and in order: an outcome fails it, leaves
/// the step to be done, or leads to the very next step. So a handler is installed only after
/// everything before it went well, and every shard has its queue by then.
pub proof fn law_steps_in_order(config: Config, step: InitStep, outcome: InitOutcome)
    requires
        step_ok(config, step),
    ensures
        ({
            let next = init_after(config, step, outcome);
            &&& step_ok(config, next)
            &&& next is Failed || next == step || steps_before(config, next) == steps_before(
                config,
                step,
            ) + 1
        }),
{
}

/// A preparation that is ready or has failed stays so, whatever is reported to it.
pub proof fn law_end_is_final(config: Config, step: InitStep, outcomes: Seq<InitOutcome>)
    requires
        step is Ready || step is Failed,
    ensures
        init_after_all(config, step, outcomes) == step,
    decreases outcomes.len(),
{
    if outcomes.len() > 0 {
        law_end_is_final(config, step, outcomes.drop_last());
    }
}

/// A preparation fails with one of the codes 1 to 8, so neither 0 nor the 9 of a profiler that
/// is already running can be mistaken for it.
pub proof fn law_failure_codes(config: Config, step: InitStep, outcome: InitOutcome)
    requires
        !(step is Failed),
    ensures
        init_after(config, step, outcome) matches InitStep::Failed { code } ==> 1 <= code <= 8,
{
}

/// Each step fails with its own code: 1 for crash recovery, the error's code for what concerns
/// the interpreter, 7 for queues, the event descriptor and the reader, 8 for the handler.
pub proof fn law_code_of_each_step(config: Config, step: InitStep, error: InitError)
    ensures
        init_after(config, InitStep::InstallRecovery, InitOutcome::StepFailed)
            == (InitStep::Failed { code: 1 }),
        reports_init_error(step) ==> init_after(config, step, InitOutcome::InitFailed(error))
            == (InitStep::Failed { code: init_error_code(error) }),
        step is SplitRing || step is CreateEventFd || step is SpawnReader ==> init_after(
            config,
            step,
            InitOutcome::StepFailed,
        ) == (InitStep::Failed { code: 7 }),
        init_after(config, InitStep::InstallHandler, InitOutcome::StepFailed)
            == (InitStep::Failed { code: 8 }),
{
}

/// The handler is only ever handed a configuration that it can work with, and a count from
/// which the first sample wakes the reader.
pub proof fn law_published_config_is_usable(config: Config, step: InitStep, outcome: InitOutcome)
    requires
        config.wf(),
        !(step is PublishState),
    ensures
        init_after(config, step, outcome) matches InitStep::PublishState { handler, count } ==> {
            &&& handler.wf()
            &&& notifies(count as int, handler.notify_interval)
        },
{
    vstd::arithmetic::div_mod::lemma_small_mod(0, config.notify_interval as nat);
}

/// The outcomes of a preparation in which every step goes well.
pub open spec fn good_outcomes(
    config: Config,
    binary: PythonBinary,
    symbols: ElfSymbols,
    version_hex: u64,
    tls_offset: u64,
) -> Seq<InitOutcome> {
    seq![
        InitOutcome::Done,
        InitOutcome::Python(binary),
        InitOutcome::Symbols(symbols),
        InitOutcome::Done,
        InitOutcome::VersionHex(version_hex),
        InitOutcome::Done,
        InitOutcome::TlsOffset(tls_offset),
    ] + Seq::new(config.num_shards as nat + 4, |i: int| InitOutcome::Done)
}

/// The step that comes after the first `k` good outcomes.
pub open spec fn good_step(
    config: Config,
    binary: PythonBinary,
    symbols: ElfSymbols,
    version_hex: u64,
    tls_offset: u64,
    k: int,
) -> InitStep {
    let rings = config.num_shards as int;
    if k == 0 {
        InitStep::InstallRecovery
    } else if k == 1 {
        InitStep::FindPython
    } else if k == 2 {
        InitStep::ResolveSymbols { binary }
    } else if k == 3 {
        InitStep::DetectVersion { binary, symbols }
    } else if k == 4 {
        InitStep::ReadVersionHex { binary, symbols }
    } else if k == 5 {
        InitStep::ReadDebugOffsets { binary, symbols, version_hex }
    } else if k == 6 {
        InitStep::FindTlsOffset { binary }
    } else if k < 7 + rings {
        InitStep::SplitRing { tls_offset, shard: (k - 7) as usize }
    } else if k == 7 + rings {
        InitStep::CreateEventFd { tls_offset }
    } else if k == 8 + rings {
        InitStep::PublishState {
            handler: HandlerConfig {
                tls_offset,
                num_shards: config.num_shards,
                notify_interval: config.notify_interval,
            },
            count: 0,
        }
    } else if k == 9 + rings {
        InitStep::SpawnReader
    } else if k == 10 + rings {
        InitStep::InstallHandler
    } else {
        InitStep::Ready
    }
}

proof fn lemma_good_step(
    config: Config,
    binary: PythonBinary,
    symbols: ElfSymbols,
    version_hex: u64,
    tls_offset: u64,
    k: int,
)
    requires
        0 <= k < 11 + config.num_shards,
    ensures
        init_after(
            config,
            good_step(config, binary, symbols, version_hex, tls_offset, k),
            good_outcomes(config, binary, symbols, version_hex, tls_offset)[k],
        ) == good_step(config, binary, symbols, version_hex, tls_offset, k + 1),
{
    let all = good_outcomes(config, binary, symbols, version_hex, tls_offset);
    if k >= 7 {
        assert(all[k] == InitOutcome::Done);
    }
}

/// Where every step goes well, the preparation works on what its steps found, splits one queue
/// for each shard, publishes the configuration with the offset that was found and a count of 0,
/// and is ready.
pub proof fn law_good_preparation(
    config: Config,
    binary: PythonBinary,
    symbols: ElfSymbols,
    version_hex: u64,
    tls_offset: u64,
    k: int,
)
    requires
        0 <= k <= 11 + config.num_shards,
    ensures
        ({
            let all = good_outcomes(config, binary, symbols, version_hex, tls_offset);
            &&& all.len() == 11 + config.num_shards
            &&& init_after_all(config, InitStep::InstallRecovery, all.take(k)) == good_step(
                config,
                binary,
                symbols,
                version_hex,
                tls_offset,
                k,
            )
            &&& k == all.len() ==> init_after_all(config, InitStep::InstallRecovery, all)
                == InitStep::Ready
        }),
    decreases k,
{
    let all = good_outcomes(config, binary, symbols, version_hex, tls_offset);
    if k > 0 {
        law_good_preparation(config, binary, symbols, version_hex, tls_offset, k - 1);
        lemma_good_step(config, binary, symbols, version_hex, tls_offset, k - 1);
        assert(all.take(k).drop_last() =~= all.take(k - 1));
        assert(all.take(k).last() == all[k - 1]);
    }
    assert(all.take(all.len() as int) =~= all);
}

/// Each step that goes well hands on what it found, unchanged, to the steps that need it: the
/// binary, its symbols, the version number and the offset.
pub proof fn law_steps_hand_on_what_they_found(
    config: Config,
    binary: PythonBinary,
    symbols: ElfSymbols,
    version_hex: u64,
    tls_offset: u64,
)
    ensures
        init_after(config, InitStep::InstallRecovery, InitOutcome::Done) == InitStep::FindPython,
        init_after(config, InitStep::FindPython, InitOutcome::Python(binary))
            == (InitStep::ResolveSymbols { binary }),
        init_after(config, InitStep::ResolveSymbols { binary }, InitOutcome::Symbols(symbols))
            == (InitStep::DetectVersion { binary, symbols }),
        init_after(config, InitStep::DetectVersion { binary, symbols }, InitOutcome::Done)
            == (InitStep::ReadVersionHex { binary, symbols }),
        init_after(
            config,
            InitStep::ReadVersionHex { binary, symbols },
            InitOutcome::VersionHex(version_hex),
        ) == (InitStep::ReadDebugOffsets { binary, symbols, version_hex }),
        init_after(
            config,
            InitStep::ReadDebugOffsets { binary, symbols, version_hex },
            InitOutcome::Done,
        ) == (InitStep::FindTlsOffset { binary }),
        config.num_shards >= 1 ==> init_after(
            config,
            InitStep::FindTlsOffset { binary },
            InitOutcome::TlsOffset(tls_offset),
        ) == (InitStep::SplitRing { tls_offset, shard: 0 }),
{
}

/// The queues are split one by one, one for each shard, and the handler is then handed the
/// offset that was found, the number of shards and the interval, all whole.
pub proof fn law_one_queue_per_shard(
    config: Config,
    tls_offset: u64,
    shard: usize,
    handler: HandlerConfig,
    count: u32,
)
    requires
        shard < config.num_shards,
    ensures
        shard + 1 < config.num_shards ==> init_after(
            config,
            InitStep::SplitRing { tls_offset, shard },
            InitOutcome::Done,
        ) == (InitStep::SplitRing { tls_offset, shard: (shard + 1) as usize }),
        shard + 1 == config.num_shards ==> init_after(
            config,
            InitStep::SplitRing { tls_offset, shard },
            InitOutcome::Done,
        ) == (InitStep::CreateEventFd { tls_offset }),
        init_after(config, InitStep::CreateEventFd { tls_offset }, InitOutcome::Done) matches
            InitStep::PublishState { handler: h, count: c } && {
            &&& h.tls_offset == tls_offset
            &&& h.num_shards == config.num_shards
            &&& h.notify_interval == config.notify_interval
            &&& c == 0
        },
        init_after(config, InitStep::PublishState { handler, count }, InitOutcome::Done)
            == InitStep::SpawnReader,
        init_after(config, InitStep::SpawnReader, InitOutcome::Done) == InitStep::InstallHandler,
        init_after(config, InitStep::InstallHandler, InitOutcome::Done) == InitStep::Ready,
{
}

/// The code of an error depends on the error alone, not on the step that it came from, and so
/// does that of a step on the step alone, not on the shard or the configuration.
pub proof fn law_codes_do_not_depend_on_the_rest(
    c1: Config,
    c2: Config,
    a: InitStep,
    b: InitStep,
    error: InitError,
    t1: u64,
    t2: u64,
    s1: usize,
    s2: usize,
)
    ensures
        reports_init_error(a) && reports_init_error(b) ==> init_after(
            c1,
            a,
            InitOutcome::InitFailed(error),
        ) == init_after(c2, b, InitOutcome::InitFailed(error)),
        init_after(
            c1,
            InitStep::SplitRing { tls_offset: t1, shard: s1 },
            InitOutcome::StepFailed,
        ) == init_after(
            c2,
            InitStep::SplitRing { tls_offset: t2, shard: s2 },
            InitOutcome::StepFailed,
        ),
{
}

/// Nothing is printed but at the end, when the last step went well.
pub proof fn law_message_at_the_end_only(step: InitStep, outcome: InitOutcome)
    ensures
        init_text(step, outcome).len() > 0 <==> step is InstallHandler && outcome is Done,
        step is InstallHandler && outcome is Done ==> init_text(step, outcome) == seq![
            encode_utf8("pyroscope_cpython: init complete"@),
            seq![10u8],
        ],
{
}

} // verus!
