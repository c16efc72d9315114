//! Configuring, starting and restarting the profiler.
use vstd::prelude::*;

verus! {

/// Number of shards for concurrent access from signal handlers, unless configured.
pub const DEFAULT_NUM_SHARDS: usize = 16;

/// The reader is notified once per this many samples.
pub const DEFAULT_NOTIFY_INTERVAL: u32 = 32;

/// The code for a name or address that is missing.
pub const CODE_NULL_ARGUMENT: i32 = 1;

/// The code for a profiler that is already running.
pub const CODE_ALREADY_RUNNING: i32 = 9;

/// Runtime configuration of the profiler.
#[derive(Debug, Clone, Copy, PartialEq, Eq, Structural)]
pub struct Config {
    /// Number of shards for concurrent access from signal handlers.
    pub num_shards: usize,
    /// Notify the reader every so many successful sample writes.
    pub notify_interval: u32,
    /// Print diagnostic messages.
    pub log_enabled: bool,
}

impl Config {
    /// There is a shard, their number fits a C `int`, and the interval is no zero.
    pub open spec fn wf(self) -> bool {
        &&& 1 <= self.num_shards <= i32::MAX
        &&& self.notify_interval >= 1
    }
}

/// The configuration of a profiler that nobody configured.
pub open spec fn default_config() -> Config {
    Config {
        num_shards: DEFAULT_NUM_SHARDS,
        notify_interval: DEFAULT_NOTIFY_INTERVAL,
        log_enabled: false,
    }
}

impl Default for Config {
    fn default() -> (r: Config)
        ensures
            r == default_config(),
    {
        Config {
            num_shards: DEFAULT_NUM_SHARDS,
            notify_interval: DEFAULT_NOTIFY_INTERVAL,
            log_enabled: false,
        }
    }
}

/// Whether the profiler runs. It counts as running from the moment that it is being started.
#[derive(Debug, Clone, Copy, PartialEq, Eq, Structural)]
pub enum Lifecycle {
    Uninitialized,
    Running,
}

/// The profiler's state between calls.
#[derive(Debug, Clone, Copy, PartialEq, Eq, Structural)]
pub struct Profiler {
    pub lifecycle: Lifecycle,
    /// The configuration for the next start, where one was given.
    pub config: Option<Config>,
    /// Diagnostic messages are printed, as the last configuration asked for.
    pub log_enabled: bool,
}

impl Profiler {
    /// A configuration that waits for the next start can be started with.
    pub open spec fn wf(self) -> bool {
        self.config matches Some(c) ==> c.wf()
    }

    /// The configuration that the next start takes.
    pub open spec fn next_config(self) -> Config {
        match self.config {
            Some(c) => c,
            None => default_config(),
        }
    }

    /// A profiler that was neither configured nor started.
    pub fn new() -> (r: Profiler)
        ensures
            r == (Profiler {
                lifecycle: Lifecycle::Uninitialized,
                config: None,
                log_enabled: false,
            }),
            r.wf(),
    {
        Profiler { lifecycle: Lifecycle::Uninitialized, config: None, log_enabled: false }
    }
}

/// The configuration that these arguments ask for. No positive number of shards stands for the
/// default.
pub open spec fn requested_config(num_shards: i32, log_enabled: i32) -> Config {
    Config {
        num_shards: if num_shards <= 0 {
            DEFAULT_NUM_SHARDS
        } else {
            num_shards as usize
        },
        notify_interval: DEFAULT_NOTIFY_INTERVAL,
        log_enabled: log_enabled != 0,
    }
}

/// The profiler after a call of [`pyroscope_configure`].
pub open spec fn configured(p: Profiler, num_shards: i32, log_enabled: i32) -> Profiler {
    if p.lifecycle == Lifecycle::Uninitialized {
        Profiler {
            lifecycle: p.lifecycle,
            config: Some(requested_config(num_shards, log_enabled)),
            log_enabled: log_enabled != 0,
        }
    } else {
        p
    }
}

/// Configures the profiler before it is started. The size of the queues is fixed when the
/// program is built, so `queue_size_kb` has no effect. Returns 0, or 9 if the profiler is
/// already running.
pub fn pyroscope_configure(
    profiler: &mut Profiler,
    num_shards: i32,
    queue_size_kb: i32,
    log_enabled: i32,
) -> (code: i32)
    ensures
        *final(profiler) == configured(*old(profiler), num_shards, log_enabled),
        code == if old(profiler).lifecycle == Lifecycle::Uninitialized {
            0
        } else {
            CODE_ALREADY_RUNNING
        },
        old(profiler).wf() ==> final(profiler).wf(),
{
    match profiler.lifecycle {
        Lifecycle::Uninitialized => {},
        Lifecycle::Running => {
            return CODE_ALREADY_RUNNING;
        },
    }
    let shards: usize = if num_shards <= 0 {
        DEFAULT_NUM_SHARDS
    } else {
        num_shards as usize
    };
    let config = Config {
        num_shards: shards,
        notify_interval: DEFAULT_NOTIFY_INTERVAL,
        log_enabled: log_enabled != 0,
    };
    profiler.log_enabled = config.log_enabled;
    profiler.config = Some(config);
    0
}

/// The profiler after a call of [`pyroscope_start`] that may go on.
pub open spec fn starting(p: Profiler) -> Profiler {
    Profiler { lifecycle: Lifecycle::Running, config: None, log_enabled: p.log_enabled }
}

/// What [`pyroscope_start`] answers: the configuration to start with, or a code.
pub open spec fn start_answer(p: Profiler, has_app_name: bool, has_server_url: bool) -> Result<
    Config,
    i32,
> {
    if !has_app_name || !has_server_url {
        Err(CODE_NULL_ARGUMENT)
    } else if p.lifecycle != Lifecycle::Uninitialized {
        Err(CODE_ALREADY_RUNNING)
    } else {
        Ok(p.next_config())
    }
}

/// Begins to start the profiler. A null application name or server address is refused with 1,
/// a second start with 9; neither changes anything. Otherwise the profiler counts as running,
/// and the answer is the configuration to prepare it with, which is used up by this.
pub fn pyroscope_start(
    profiler: &mut Profiler,
    has_app_name: bool,
    has_server_url: bool,
) -> (r: Result<Config, i32>)
    ensures
        r == start_answer(*old(profiler), has_app_name, has_server_url),
        *final(profiler) == if r is Ok {
            starting(*old(profiler))
        } else {
            *old(profiler)
        },
        old(profiler).wf() ==> final(profiler).wf(),
        old(profiler).wf() && r is Ok ==> r.unwrap().wf(),
{
    if !has_app_name || !has_server_url {
        return Err(CODE_NULL_ARGUMENT);
    }
    match profiler.lifecycle {
        Lifecycle::Uninitialized => {},
        Lifecycle::Running => {
            return Err(CODE_ALREADY_RUNNING);
        },
    }
    profiler.lifecycle = Lifecycle::Running;
    match profiler.config.take() {
        Some(c) => Ok(c),
        None => Ok(Config::default()),
    }
}

/// The profiler after its preparation ended with `outcome`.
pub open spec fn started(p: Profiler, outcome: Result<(), i32>) -> Profiler {
    match outcome {
        Ok(_) => p,
        Err(_) => Profiler {
            lifecycle: Lifecycle::Uninitialized,
            config: p.config,
            log_enabled: p.log_enabled,
        },
    }
}

/// What a start answers whose preparation ended with `outcome`.
pub open spec fn finish_code(outcome: Result<(), i32>) -> i32 {
    match outcome {
        Ok(_) => 0,
        Err(c) => c,
    }
}

/// Ends a start: 0 where the preparation went well, else its code, and the profiler can be
/// configured and started again.
pub fn finish_start(profiler: &mut Profiler, outcome: Result<(), i32>) -> (code: i32)
    ensures
        *final(profiler) == started(*old(profiler), outcome),
        code == finish_code(outcome),
        outcome is Ok ==> code == 0,
        outcome matches Err(c) ==> code == c,
        old(profiler).wf() ==> final(profiler).wf(),
{
    match outcome {
        Ok(_) => 0,
        Err(code) => {
            profiler.lifecycle = Lifecycle::Uninitialized;
            code
        },
    }
}

/// A running profiler can neither be configured nor started: it answers 9 and stays as it is.
pub proof fn law_running_refuses(p: Profiler, num_shards: i32, log_enabled: i32)
    requires
        p.lifecycle == Lifecycle::Running,
    ensures
        configured(p, num_shards, log_enabled) == p,
        start_answer(p, true, true) == Err::<Config, i32>(CODE_ALREADY_RUNNING),
{
}

/// A start without an application name or without a server address is refused with 1, whether
/// or not the profiler runs.
pub proof fn law_null_is_refused(p: Profiler, has_app_name: bool, has_server_url: bool)
    requires
        !(has_app_name && has_server_url),
    ensures
        start_answer(p, has_app_name, has_server_url) == Err::<Config, i32>(CODE_NULL_ARGUMENT),
{
}

/// A start takes the configuration that was given last, and the default one where none was.
pub proof fn law_start_takes_the_last_configuration(
    p: Profiler,
    first: (i32, i32),
    last: (i32, i32),
)
    requires
        p.lifecycle == Lifecycle::Uninitialized,
    ensures
        ({
            let once = configured(p, last.0, last.1);
            let twice = configured(configured(p, first.0, first.1), last.0, last.1);
            &&& start_answer(once, true, true) == Ok::<Config, i32>(
                requested_config(last.0, last.1),
            )
            &&& start_answer(twice, true, true) == Ok::<Config, i32>(
                requested_config(last.0, last.1),
            )
        }),
        p.config is None ==> start_answer(p, true, true) == Ok::<Config, i32>(default_config()),
{
}

/// A start that failed leaves a profiler that can be started again. The configuration was used
/// up by the attempt: without a new one the next start takes the default.
pub proof fn law_failed_start_can_be_repeated(p: Profiler, code: i32)
    requires
        p.lifecycle == Lifecycle::Uninitialized,
    ensures
        ({
            let q = started(starting(p), Err(code));
            &&& q.lifecycle == Lifecycle::Uninitialized
            &&& q.log_enabled == p.log_enabled
            &&& start_answer(q, true, true) == Ok::<Config, i32>(default_config())
        }),
{
}

/// A start that went well leaves a profiler that answers 9 to every further start.
pub proof fn law_successful_start_is_final(p: Profiler)
    requires
        p.lifecycle == Lifecycle::Uninitialized,
    ensures
        started(starting(p), Ok(())).lifecycle == Lifecycle::Running,
        start_answer(started(starting(p), Ok(())), true, true) == Err::<Config, i32>(
            CODE_ALREADY_RUNNING,
        ),
{
}

/// Diagnostic messages are printed exactly where the last configuration that was accepted asked
/// for them; starting, successful or not, changes nothing about it.
pub proof fn law_logging_follows_the_last_configuration(
    p: Profiler,
    num_shards: i32,
    log_enabled: i32,
    outcome: Result<(), i32>,
)
    ensures
        p.lifecycle == Lifecycle::Uninitialized ==> (configured(
            p,
            num_shards,
            log_enabled,
        ).log_enabled <==> log_enabled != 0),
        p.lifecycle == Lifecycle::Running ==> configured(p, num_shards, log_enabled).log_enabled
            == p.log_enabled,
        starting(p).log_enabled == p.log_enabled,
        started(p, outcome).log_enabled == p.log_enabled,
{
}

/// Whatever is asked for, the configuration can be started with: there is at least one shard.
pub proof fn law_configurations_are_usable(num_shards: i32, log_enabled: i32)
    ensures
        requested_config(num_shards, log_enabled).wf(),
        default_config().wf(),
        num_shards >= 1 ==> requested_config(num_shards, log_enabled).num_shards == num_shards,
        num_shards <= 0 ==> requested_config(num_shards, log_enabled).num_shards == 16,
        requested_config(num_shards, log_enabled).notify_interval == 32,
        requested_config(num_shards, log_enabled).log_enabled <==> log_enabled != 0,
        default_config().num_shards == 16,
        default_config().notify_interval == 32,
        !default_config().log_enabled,
{
}

/// An accepted configuration waits for the next start as it was asked for, and does not start
/// anything. A start takes it away, and counts as running until its preparation fails. A failed
/// preparation's code is what the start answers.
pub proof fn law_configuration_waits_for_a_start(
    p: Profiler,
    num_shards: i32,
    log_enabled: i32,
    code: i32,
)
    requires
        p.lifecycle == Lifecycle::Uninitialized,
    ensures
        ({
            let q = configured(p, num_shards, log_enabled);
            &&& q.lifecycle == Lifecycle::Uninitialized
            &&& q.config matches Some(c)
            &&& num_shards >= 1 ==> c.num_shards == num_shards
            &&& num_shards <= 0 ==> c.num_shards == 16
            &&& c.notify_interval == 32
            &&& c.log_enabled <==> log_enabled != 0
            &&& start_answer(q, true, true) == Ok::<Config, i32>(c)
            &&& starting(q).lifecycle == Lifecycle::Running
            &&& starting(q).config is None
            &&& started(starting(q), Err(code)).lifecycle == Lifecycle::Uninitialized
            &&& started(starting(q), Ok(())) == starting(q)
        }),
        finish_code(Ok(())) == 0,
        finish_code(Err(code)) == code,
{
}

} // verus!
