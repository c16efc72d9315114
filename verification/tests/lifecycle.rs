use pyroscope_kit::errors::{map_init_error, InitError};
use pyroscope_kit::lifecycle::{
    finish_start, pyroscope_configure, pyroscope_start, Config, Lifecycle, Profiler,
};

fn config(num_shards: usize, log_enabled: bool) -> Config {
    Config { num_shards, notify_interval: 32, log_enabled }
}

#[test]
fn defaults() {
    assert_eq!(Config::default(), config(16, false));
    let mut p = Profiler::new();
    assert_eq!(pyroscope_start(&mut p, true, true), Ok(config(16, false)));
    assert_eq!(p.lifecycle, Lifecycle::Running);
}

#[test]
fn configuration_is_used_by_the_next_start() {
    let mut p = Profiler::new();
    assert_eq!(pyroscope_configure(&mut p, 4, 512, 1), 0);
    assert_eq!(pyroscope_start(&mut p, true, true), Ok(config(4, true)));
    assert_eq!(finish_start(&mut p, Ok(())), 0);
    assert_eq!(p.lifecycle, Lifecycle::Running);
}

#[test]
fn last_configuration_counts() {
    let mut p = Profiler::new();
    assert_eq!(pyroscope_configure(&mut p, 4, 0, 0), 0);
    assert_eq!(pyroscope_configure(&mut p, 7, 0, 0), 0);
    assert_eq!(pyroscope_start(&mut p, true, true), Ok(config(7, false)));
}

#[test]
fn no_positive_number_of_shards_means_the_default() {
    for n in [0, -1, i32::MIN] {
        let mut p = Profiler::new();
        assert_eq!(pyroscope_configure(&mut p, n, 0, 0), 0);
        assert_eq!(pyroscope_start(&mut p, true, true), Ok(config(16, false)));
    }
    let mut p = Profiler::new();
    assert_eq!(pyroscope_configure(&mut p, 1, 0, 0), 0);
    assert_eq!(pyroscope_start(&mut p, true, true), Ok(config(1, false)));
}

#[test]
fn running_profiler_refuses() {
    let mut p = Profiler::new();
    assert!(pyroscope_start(&mut p, true, true).is_ok());
    let before = p;
    assert_eq!(pyroscope_configure(&mut p, 4, 0, 1), 9);
    assert_eq!(pyroscope_start(&mut p, true, true), Err(9));
    assert_eq!(p, before);
}

#[test]
fn null_arguments_are_refused() {
    let mut p = Profiler::new();
    assert_eq!(pyroscope_configure(&mut p, 4, 0, 0), 0);
    let before = p;
    assert_eq!(pyroscope_start(&mut p, false, true), Err(1));
    assert_eq!(pyroscope_start(&mut p, true, false), Err(1));
    assert_eq!(pyroscope_start(&mut p, false, false), Err(1));
    assert_eq!(p, before);
    assert_eq!(pyroscope_start(&mut p, true, true), Ok(config(4, false)));
    assert_eq!(pyroscope_start(&mut p, false, true), Err(1));
}

#[test]
fn failed_start_can_be_repeated() {
    let mut p = Profiler::new();
    assert_eq!(pyroscope_configure(&mut p, 4, 0, 0), 0);
    assert_eq!(pyroscope_start(&mut p, true, true), Ok(config(4, false)));
    assert_eq!(finish_start(&mut p, Err(2)), 2);
    assert_eq!(p.lifecycle, Lifecycle::Uninitialized);
    // The configuration was used up by the attempt.
    assert_eq!(pyroscope_start(&mut p, true, true), Ok(config(16, false)));
}

#[test]
fn logging_follows_the_last_configuration() {
    let mut p = Profiler::new();
    assert!(!p.log_enabled);
    assert_eq!(pyroscope_configure(&mut p, 0, 0, 1), 0);
    assert!(p.log_enabled);
    assert_eq!(pyroscope_configure(&mut p, 0, 0, 0), 0);
    assert!(!p.log_enabled);
    assert_eq!(pyroscope_configure(&mut p, 0, 0, -5), 0);
    assert!(p.log_enabled);
    assert_eq!(pyroscope_start(&mut p, true, true), Ok(config(16, true)));
    assert_eq!(pyroscope_configure(&mut p, 0, 0, 0), 9);
    assert!(p.log_enabled);
    assert_eq!(finish_start(&mut p, Err(7)), 7);
    assert!(p.log_enabled);
}

#[test]
fn error_codes() {
    assert_eq!(map_init_error(&InitError::KindasafeInitFailed), 1);
    assert_eq!(map_init_error(&InitError::PythonNotFound), 2);
    assert_eq!(map_init_error(&InitError::Io), 2);
    assert_eq!(map_init_error(&InitError::SymbolNotFound), 3);
    assert_eq!(map_init_error(&InitError::ElfParse), 3);
    assert_eq!(map_init_error(&InitError::DebugOffsetsMismatch), 4);
    assert_eq!(map_init_error(&InitError::UnsupportedVersion), 5);
    assert_eq!(map_init_error(&InitError::TlsDiscoveryFailed), 6);
}
