use pyroscope_kit::debug::DebugOutput;
use pyroscope_kit::elf::ElfSymbols;
use pyroscope_kit::errors::InitError;
use pyroscope_kit::handler::HandlerConfig;
use pyroscope_kit::init::{begin_init, next_init_step, InitOutcome, InitStep};
use pyroscope_kit::lifecycle::Config;
use pyroscope_kit::maps::PythonBinary;

const CONFIG: Config = Config { num_shards: 3, notify_interval: 32, log_enabled: false };
const SYMBOLS: ElfSymbols = ElfSymbols { py_runtime_addr: 0x10, py_version_addr: 0x20 };

fn good() -> Vec<InitOutcome> {
    let mut all = vec![
        InitOutcome::Done,
        InitOutcome::Python(PythonBinary { base: 0x1000, path: String::from("/usr/bin/python3") }),
        InitOutcome::Symbols(SYMBOLS),
        InitOutcome::Done,
        InitOutcome::VersionHex(0x030d00f0),
        InitOutcome::Done,
        InitOutcome::TlsOffset(0x88),
    ];
    for _ in 0..CONFIG.num_shards + 4 {
        all.push(InitOutcome::Done);
    }
    all
}

fn after(outcomes: Vec<InitOutcome>) -> InitStep {
    let mut out = DebugOutput::new(false);
    let mut step = begin_init();
    for outcome in outcomes {
        step = next_init_step(&CONFIG, step, outcome, &mut out);
    }
    step
}

fn after_good(n: usize) -> InitStep {
    let mut all = good();
    all.truncate(n);
    after(all)
}

fn code_after(n: usize, last: InitOutcome) -> Option<i32> {
    let mut all = good();
    all.truncate(n);
    all.push(last);
    match after(all) {
        InitStep::Failed { code } => Some(code),
        _ => None,
    }
}

#[test]
fn every_step_in_order() {
    assert!(matches!(after_good(0), InitStep::InstallRecovery));
    assert!(matches!(after_good(1), InitStep::FindPython));
    assert!(matches!(after_good(2), InitStep::ResolveSymbols { binary } if binary.base == 0x1000));
    assert!(matches!(after_good(3), InitStep::DetectVersion { symbols, .. } if symbols == SYMBOLS));
    assert!(matches!(after_good(4), InitStep::ReadVersionHex { symbols, .. } if symbols == SYMBOLS));
    assert!(matches!(after_good(5), InitStep::ReadDebugOffsets { version_hex: 0x030d00f0, .. }));
    assert!(matches!(after_good(6), InitStep::FindTlsOffset { binary } if binary.path == "/usr/bin/python3"));
    assert!(matches!(after_good(7), InitStep::SplitRing { tls_offset: 0x88, shard: 0 }));
    assert!(matches!(after_good(8), InitStep::SplitRing { tls_offset: 0x88, shard: 1 }));
    assert!(matches!(after_good(9), InitStep::SplitRing { tls_offset: 0x88, shard: 2 }));
    assert!(matches!(after_good(10), InitStep::CreateEventFd { tls_offset: 0x88 }));
    let published = HandlerConfig { tls_offset: 0x88, num_shards: 3, notify_interval: 32 };
    assert!(matches!(after_good(11), InitStep::PublishState { handler, count: 0 } if handler == published));
    assert!(matches!(after_good(12), InitStep::SpawnReader));
    assert!(matches!(after_good(13), InitStep::InstallHandler));
    assert!(matches!(after_good(14), InitStep::Ready));
    assert_eq!(good().len(), 14);
}

#[test]
fn code_of_each_failure() {
    assert_eq!(code_after(0, InitOutcome::StepFailed), Some(1));
    assert_eq!(code_after(1, InitOutcome::InitFailed(InitError::PythonNotFound)), Some(2));
    assert_eq!(code_after(2, InitOutcome::InitFailed(InitError::Io)), Some(2));
    assert_eq!(code_after(2, InitOutcome::InitFailed(InitError::SymbolNotFound)), Some(3));
    assert_eq!(code_after(2, InitOutcome::InitFailed(InitError::ElfParse)), Some(3));
    assert_eq!(code_after(3, InitOutcome::InitFailed(InitError::UnsupportedVersion)), Some(5));
    assert_eq!(code_after(4, InitOutcome::InitFailed(InitError::UnsupportedVersion)), Some(5));
    assert_eq!(code_after(5, InitOutcome::InitFailed(InitError::DebugOffsetsMismatch)), Some(4));
    assert_eq!(code_after(6, InitOutcome::InitFailed(InitError::TlsDiscoveryFailed)), Some(6));
    for ring in 7..10 {
        assert_eq!(code_after(ring, InitOutcome::StepFailed), Some(7));
    }
    assert_eq!(code_after(10, InitOutcome::StepFailed), Some(7));
    assert_eq!(code_after(12, InitOutcome::StepFailed), Some(7));
    assert_eq!(code_after(13, InitOutcome::StepFailed), Some(8));
}

#[test]
fn ends_are_final() {
    let mut out = DebugOutput::new(false);
    let failed = InitStep::Failed { code: 3 };
    assert!(matches!(
        next_init_step(&CONFIG, failed, InitOutcome::Done, &mut out),
        InitStep::Failed { code: 3 }
    ));
    assert!(matches!(
        next_init_step(&CONFIG, InitStep::Ready, InitOutcome::StepFailed, &mut out),
        InitStep::Ready
    ));
}

#[test]
fn outcome_of_another_step_changes_nothing() {
    assert_eq!(code_after(11, InitOutcome::StepFailed), None);
    let mut out = DebugOutput::new(false);
    assert!(matches!(
        next_init_step(&CONFIG, InitStep::FindPython, InitOutcome::Done, &mut out),
        InitStep::FindPython
    ));
}

#[test]
fn without_shards_there_are_no_queues() {
    let config = Config { num_shards: 0, notify_interval: 32, log_enabled: false };
    let mut out = DebugOutput::new(false);
    let binary = PythonBinary { base: 0, path: String::new() };
    let step = InitStep::FindTlsOffset { binary };
    assert!(matches!(
        next_init_step(&config, step, InitOutcome::TlsOffset(1), &mut out),
        InitStep::CreateEventFd { tls_offset: 1 }
    ));
}

#[test]
fn message_when_all_is_done() {
    let mut out = DebugOutput::new(true);
    let mut step = begin_init();
    for outcome in good() {
        assert!(out.pending.is_empty());
        step = next_init_step(&CONFIG, step, outcome, &mut out);
    }
    assert!(matches!(step, InitStep::Ready));
    let expected: Vec<&[u8]> = vec![b"pyroscope_cpython: init complete", b"\n"];
    assert_eq!(out.pending, expected);
}
