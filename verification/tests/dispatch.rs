use covtrace::config::{Color, Config, Platform, RunError, TestBinary, TraceEngine};
use covtrace::process_handling::{
    build_arguments, build_environment, get_test_coverage, launch_test, prepare_launch,
    SpawnOutcome, TestHandle,
};
use covtrace::statemachine::Event;
use covtrace::traces::{LineAnalysis, LineMeta};

fn binary() -> TestBinary {
    TestBinary {
        path: "target/debug/mybin".to_string(),
        file_name: "mybin".to_string(),
        pkg_name: Some("mypkg".to_string()),
        pkg_version: Some("0.3.1".to_string()),
        pkg_authors: Some(vec!["ada".to_string(), "grace".to_string()]),
        manifest_dir: Some("/proj/mypkg".to_string()),
    }
}

fn config(engine: TraceEngine) -> Config {
    Config {
        engine,
        verbose: true,
        color: Color::Never,
        varargs: vec!["--nocapture".to_string()],
        root: "/proj".to_string(),
        timeout_ms: 60_000,
    }
}

fn one_line_analysis() -> Vec<LineAnalysis> {
    vec![LineAnalysis {
        path: "src/lib.rs".to_string(),
        lines: vec![LineMeta { line: 1, coverable: true, addresses: vec![0x100] }],
    }]
}

#[test]
fn unsupported_engine_is_refused_before_any_spawn() {
    let platform = Platform { ptrace_supported: false };
    let cfg = config(TraceEngine::Ptrace);
    let r = prepare_launch(&binary(), false, &cfg, &platform, &vec![]);
    assert!(matches!(r, Err(RunError::UnsupportedEngine)));
    let r = get_test_coverage(
        &binary(),
        &one_line_analysis(),
        &cfg,
        false,
        &platform,
        &SpawnOutcome::Skipped,
        &vec![],
        &vec![],
    );
    assert!(matches!(r, Err(RunError::UnsupportedEngine)));
}

#[test]
fn unknown_engine_is_an_engine_error() {
    let platform = Platform { ptrace_supported: true };
    let cfg = config(TraceEngine::Auto);
    let r = launch_test(&binary(), &cfg, false, &platform, &SpawnOutcome::Skipped);
    assert!(matches!(r, Err(RunError::Engine)));
}

#[test]
fn spawn_failure_is_surfaced() {
    let platform = Platform { ptrace_supported: true };
    let cfg = config(TraceEngine::Llvm);
    let outcome = SpawnOutcome::Failed("no such file".to_string());
    let r = launch_test(&binary(), &cfg, false, &platform, &outcome);
    match r {
        Err(RunError::SpawnFailure(m)) => assert_eq!(m, "no such file"),
        other => panic!("expected a spawn failure, got {:?}", other.is_ok()),
    }
}

#[test]
fn skipped_test_reports_none() {
    let platform = Platform { ptrace_supported: true };
    let cfg = config(TraceEngine::Ptrace);
    let r = launch_test(&binary(), &cfg, false, &platform, &SpawnOutcome::Skipped);
    assert!(matches!(r, Ok(None)));
}

#[test]
fn llvm_launch_snapshots_existing_profraws() {
    let platform = Platform { ptrace_supported: false };
    let cfg = config(TraceEngine::Llvm);
    let outcome = SpawnOutcome::Spawned {
        pid: 42,
        dir_files: vec!["stale.profraw".to_string(), "README.md".to_string()],
    };
    let r = launch_test(&binary(), &cfg, false, &platform, &outcome);
    match r {
        Ok(Some(TestHandle::Process(h))) => {
            assert_eq!(h.pid, 42);
            assert_eq!(h.path, "target/debug/mybin");
            assert_eq!(h.existing_profraws, vec!["stale.profraw".to_string()]);
        },
        _ => panic!("expected a spawned child handle"),
    }
}

#[test]
fn ptrace_launch_yields_a_raw_pid() {
    let platform = Platform { ptrace_supported: true };
    let cfg = config(TraceEngine::Ptrace);
    let outcome = SpawnOutcome::Spawned { pid: 9001, dir_files: vec![] };
    let r = launch_test(&binary(), &cfg, false, &platform, &outcome);
    assert!(matches!(r, Ok(Some(TestHandle::Id(9001)))));
}

#[test]
fn arguments_carry_ignored_varargs_and_color() {
    let cfg = config(TraceEngine::Llvm);
    let args = build_arguments(true, &cfg);
    assert_eq!(
        args,
        vec![
            "--ignored".to_string(),
            "--nocapture".to_string(),
            "--color".to_string(),
            "never".to_string(),
        ]
    );
    let mut auto_cfg = config(TraceEngine::Llvm);
    auto_cfg.color = Color::Auto;
    assert_eq!(build_arguments(false, &auto_cfg), vec!["--nocapture".to_string()]);
}

#[test]
fn environment_appends_metadata_and_profile_template() {
    let cfg = config(TraceEngine::Llvm);
    let inherited = vec![("PATH".to_string(), "/usr/bin".to_string())];
    let env = build_environment(&inherited, &binary(), &cfg);
    let expect: Vec<(String, String)> = vec![
        ("PATH".to_string(), "/usr/bin".to_string()),
        ("RUST_BACKTRACE".to_string(), "1".to_string()),
        ("CARGO_PKG_NAME".to_string(), "mypkg".to_string()),
        ("CARGO_PKG_VERSION".to_string(), "0.3.1".to_string()),
        ("CARGO_PKG_AUTHORS".to_string(), "ada:grace".to_string()),
        ("CARGO_MANIFEST_DIR".to_string(), "/proj/mypkg".to_string()),
        ("LLVM_PROFILE_FILE".to_string(), "mybin_%p.profraw".to_string()),
    ];
    assert_eq!(env, expect);
}

#[test]
fn ptrace_environment_has_no_profile_template() {
    let cfg = config(TraceEngine::Ptrace);
    let mut bin = binary();
    bin.pkg_name = None;
    bin.pkg_version = None;
    bin.pkg_authors = None;
    bin.manifest_dir = None;
    let env = build_environment(&vec![], &bin, &cfg);
    assert_eq!(env, vec![("RUST_BACKTRACE".to_string(), "1".to_string())]);
}

#[test]
fn working_directory_prefers_the_manifest_dir() {
    let platform = Platform { ptrace_supported: true };
    let cfg = config(TraceEngine::Llvm);
    let spec = prepare_launch(&binary(), false, &cfg, &platform, &vec![]).unwrap();
    assert_eq!(spec.working_dir, "/proj/mypkg");
    assert_eq!(spec.program, "target/debug/mybin");
    let mut bin = binary();
    bin.manifest_dir = None;
    let spec = prepare_launch(&bin, false, &cfg, &platform, &vec![]).unwrap();
    assert_eq!(spec.working_dir, "/proj");
}

#[test]
fn color_values_are_lowercase_words() {
    assert_eq!(Color::Auto.arg_value(), "auto");
    assert_eq!(Color::Always.arg_value(), "always");
    assert_eq!(Color::Never.arg_value(), "never");
}

#[test]
fn full_tracer_run_counts_each_hit() {
    let platform = Platform { ptrace_supported: true };
    let cfg = config(TraceEngine::Ptrace);
    let events = vec![
        Event::Stopped(0x100),
        Event::Stopped(0x100),
        Event::Stopped(0x100),
        Event::Exited(0),
    ];
    let r = get_test_coverage(
        &binary(),
        &one_line_analysis(),
        &cfg,
        false,
        &platform,
        &SpawnOutcome::Spawned { pid: 7, dir_files: vec![] },
        &vec![(0x100, 0x55)],
        &events,
    );
    let (m, code) = r.unwrap().unwrap();
    assert_eq!(code, 0);
    assert_eq!(m.traces[0].hits, 3);
}

#[test]
fn exit_without_hits_keeps_the_map_at_zero() {
    let platform = Platform { ptrace_supported: true };
    let cfg = config(TraceEngine::Ptrace);
    let events = vec![Event::Exited(7)];
    let r = get_test_coverage(
        &binary(),
        &one_line_analysis(),
        &cfg,
        false,
        &platform,
        &SpawnOutcome::Spawned { pid: 7, dir_files: vec![] },
        &vec![(0x100, 0x55)],
        &events,
    );
    let (m, code) = r.unwrap().unwrap();
    assert_eq!(code, 7);
    assert_eq!(m.traces.len(), 1);
    assert_eq!(m.traces[0].hits, 0);
}

#[test]
fn running_out_of_events_is_a_timeout() {
    let platform = Platform { ptrace_supported: true };
    let cfg = config(TraceEngine::Ptrace);
    let r = get_test_coverage(
        &binary(),
        &one_line_analysis(),
        &cfg,
        false,
        &platform,
        &SpawnOutcome::Spawned { pid: 7, dir_files: vec![] },
        &vec![(0x100, 0x55)],
        &vec![Event::Stopped(0x100)],
    );
    assert!(matches!(r, Err(RunError::Timeout)));
}

#[test]
fn timeout_event_is_a_distinguished_failure() {
    let platform = Platform { ptrace_supported: true };
    let cfg = config(TraceEngine::Ptrace);
    let r = get_test_coverage(
        &binary(),
        &one_line_analysis(),
        &cfg,
        false,
        &platform,
        &SpawnOutcome::Spawned { pid: 7, dir_files: vec![] },
        &vec![(0x100, 0x55)],
        &vec![Event::Timeout],
    );
    assert!(matches!(r, Err(RunError::Timeout)));
}

#[test]
fn handles_wrap_pids_and_children() {
    assert!(matches!(TestHandle::from(7u64), TestHandle::Id(7)));
    let h = covtrace::process_handling::RunningProcessHandle::new("bin".to_string(), 3, &vec![]);
    assert!(matches!(TestHandle::from(h), TestHandle::Process(p) if p.pid == 3));
}
