use covtrace::artifacts::{filter_profraws, new_artifacts};
use covtrace::breakpoint::{BreakpointError, BreakpointSet};
use covtrace::statemachine::{
    Action, ArtifactHits, Event, LineRecord, TestState, EXIT_ARM_FAILURE, EXIT_CANCELLED,
    EXIT_TRACE_FAILURE,
};
use covtrace::process_handling::{
    collect_coverage, create_state_machine, RunningProcessHandle, TestHandle,
};
use covtrace::traces::{generate_tracemap, LineAnalysis, LineMeta};

fn analysis() -> Vec<LineAnalysis> {
    vec![LineAnalysis {
        path: "src/lib.rs".to_string(),
        lines: vec![
            LineMeta { line: 1, coverable: true, addresses: vec![0x100] },
            LineMeta { line: 2, coverable: false, addresses: vec![] },
            LineMeta { line: 3, coverable: true, addresses: vec![0x108, 0x110] },
        ],
    }]
}

#[test]
fn tracemap_has_one_zero_entry_per_coverable_line() {
    let m = generate_tracemap(&analysis());
    assert_eq!(m.traces.len(), 2);
    assert_eq!(m.traces[0].file.as_str(), "src/lib.rs");
    assert_eq!(m.traces[0].line, 1);
    assert_eq!(m.traces[0].hits, 0);
    assert_eq!(m.traces[0].addresses, vec![0x100]);
    assert_eq!(m.traces[1].line, 3);
    assert_eq!(m.traces[1].hits, 0);
    assert_eq!(m.traces[1].addresses, vec![0x108, 0x110]);
}

#[test]
fn increment_hit_counts_only_the_backed_line() {
    let mut m = generate_tracemap(&analysis());
    assert!(m.increment_hit(0x108));
    assert!(m.increment_hit(0x110));
    assert!(!m.increment_hit(0xdead));
    assert_eq!(m.traces[0].hits, 0);
    assert_eq!(m.traces[1].hits, 2);
}

#[test]
fn merge_sums_hits_instead_of_overwriting() {
    let mut a = generate_tracemap(&analysis());
    let mut b = generate_tracemap(&analysis());
    assert!(a.record_hits(&"src/lib.rs".to_string(), 1, 2));
    assert!(b.record_hits(&"src/lib.rs".to_string(), 3, 5));
    a.merge(&b);
    assert_eq!(a.traces[0].hits, 2);
    assert_eq!(a.traces[1].hits, 5);
    let empty = generate_tracemap(&analysis());
    a.merge(&empty);
    assert_eq!(a.traces[0].hits, 2);
    assert_eq!(a.traces[1].hits, 5);
}

#[test]
fn merge_unites_addresses() {
    let mut a = generate_tracemap(&analysis());
    let b = generate_tracemap(&analysis());
    a.merge(&b);
    assert_eq!(a.traces[0].addresses, vec![0x100]);
    assert_eq!(a.traces[1].addresses, vec![0x108, 0x110]);
}

#[test]
fn record_hits_on_unknown_line_changes_nothing() {
    let mut m = generate_tracemap(&analysis());
    assert!(!m.record_hits(&"src/other.rs".to_string(), 1, 7));
    assert!(!m.record_hits(&"src/lib.rs".to_string(), 2, 7));
    assert_eq!(m.traces[0].hits, 0);
    assert_eq!(m.traces[1].hits, 0);
}

#[test]
fn new_artifacts_keep_only_fresh_profraws() {
    let listing = vec![
        "a.profraw".to_string(),
        "b.profraw".to_string(),
        "c_123.profraw".to_string(),
        "notes.txt".to_string(),
    ];
    let existing = vec!["a.profraw".to_string(), "b.profraw".to_string()];
    let fresh = new_artifacts(&listing, &existing);
    assert_eq!(fresh, vec!["c_123.profraw".to_string()]);
}

#[test]
fn filter_profraws_goes_by_extension() {
    let listing = vec![
        "a.profraw".to_string(),
        "short".to_string(),
        "x.profra".to_string(),
        "deep_1234.profraw".to_string(),
    ];
    let snap = filter_profraws(&listing);
    assert_eq!(snap, vec!["a.profraw".to_string(), "deep_1234.profraw".to_string()]);
}

#[test]
fn arm_twice_fails_loudly() {
    let mut bp = BreakpointSet::new();
    assert!(bp.arm(0x100, 0x55).is_ok());
    assert_eq!(bp.arm(0x100, 0xcc), Err(BreakpointError::AlreadyArmed));
}

#[test]
fn disarm_returns_the_saved_byte() {
    let mut bp = BreakpointSet::new();
    bp.arm(0x100, 0x55).unwrap();
    assert_eq!(bp.disarm(0x100), Ok(0x55));
    assert_eq!(bp.disarm(0x100), Err(BreakpointError::NotArmed));
    assert!(bp.arm(0x100, 0xcc).is_ok());
    assert_eq!(bp.disarm(0x100), Ok(0x55));
}

#[test]
fn step_over_keeps_the_table() {
    let mut bp = BreakpointSet::new();
    bp.arm(0x100, 0x55).unwrap();
    assert_eq!(bp.step_over(0x100), Ok(0x55));
    assert_eq!(bp.step_over(0x100), Ok(0x55));
    assert_eq!(bp.step_over(0x200), Err(BreakpointError::NotArmed));
}

#[test]
fn arm_all_refuses_duplicates() {
    let mut bp = BreakpointSet::new();
    assert_eq!(bp.arm_all(&vec![(0x100, 0x55), (0x100, 0x90)]), Err(BreakpointError::AlreadyArmed));
    let mut ok = BreakpointSet::new();
    assert!(ok.arm_all(&vec![(0x100, 0x55), (0x108, 0x90)]).is_ok());
}

#[test]
fn timeout_in_wait_for_signal_terminates_the_process() {
    let m = generate_tracemap(&analysis());
    let (state, mut data) =
        create_state_machine(TestHandle::Id(7), m, vec![(0x100, 0x55), (0x108, 0x90)]);
    assert_eq!(state, TestState::Initialise);
    let state = state.step(&mut data, None);
    assert_eq!(state, TestState::WaitForSignal);
    let state = state.step(&mut data, Some(&Event::Timeout));
    assert_eq!(state, TestState::End(EXIT_CANCELLED));
    assert!(state.is_finished());
    assert!(data.cancelled);
    assert!(matches!(data.actions.last(), Some(Action::Terminate)));
}

#[test]
fn breakpoint_hit_is_counted_before_step_over() {
    let m = generate_tracemap(&analysis());
    let (state, mut data) = create_state_machine(TestHandle::Id(7), m, vec![(0x100, 0x55)]);
    let state = state.step(&mut data, None);
    let state = state.step(&mut data, Some(&Event::Stopped(0x100)));
    assert_eq!(state, TestState::HandleBreakpoint);
    let state = state.step(&mut data, None);
    assert_eq!(state, TestState::SingleStep);
    assert_eq!(data.traces.traces[0].hits, 1);
    assert!(matches!(data.actions.last(), Some(Action::Arm(0x100))));
    let state = state.step(&mut data, None);
    assert_eq!(state, TestState::WaitForSignal);
    assert!(matches!(data.actions.last(), Some(Action::Continue)));
}

#[test]
fn duplicate_trap_points_end_the_run_before_it_starts() {
    let m = generate_tracemap(&analysis());
    let (state, mut data) = create_state_machine(TestHandle::Id(7), m, vec![(0x100, 0x55), (0x100, 0x90)]);
    let state = state.step(&mut data, None);
    assert_eq!(state, TestState::End(EXIT_ARM_FAILURE));
    assert_eq!(data.traces.traces[0].hits, 0);
}

#[test]
fn instrumented_run_merges_only_fresh_artifacts() {
    let cfg = config_llvm();
    let handle = RunningProcessHandle::new(
        "target/debug/mybin".to_string(),
        42,
        &vec!["a.profraw".to_string(), "junk.txt".to_string()],
    );
    let events = vec![
        Event::Exited(0),
        Event::Artifacts {
            listing: vec!["a.profraw".to_string(), "c_123.profraw".to_string()],
            parsed: vec![
                ArtifactHits {
                    name: "c_123.profraw".to_string(),
                    records: vec![LineRecord {
                        file: "src/lib.rs".to_string(),
                        line: 1,
                        hits: 4,
                    }],
                },
                ArtifactHits {
                    name: "a.profraw".to_string(),
                    records: vec![LineRecord {
                        file: "src/lib.rs".to_string(),
                        line: 3,
                        hits: 9,
                    }],
                },
            ],
        },
    ];
    let r = collect_coverage(TestHandle::Process(handle), &analysis(), &cfg, &vec![], &events);
    let (m, code) = r.unwrap();
    assert_eq!(code, 0);
    assert_eq!(m.traces[0].hits, 4);
    assert_eq!(m.traces[1].hits, 0);
}

#[test]
fn trace_error_returns_the_partial_map() {
    let cfg = config_ptrace();
    let events = vec![Event::Stopped(0x100), Event::TraceError];
    let r = collect_coverage(
        TestHandle::Id(7),
        &analysis(),
        &cfg,
        &vec![(0x100, 0x55), (0x108, 0x90)],
        &events,
    );
    let (m, code) = r.unwrap();
    assert_eq!(code, EXIT_TRACE_FAILURE);
    assert_eq!(m.traces[0].hits, 1);
}

fn config_llvm() -> covtrace::config::Config {
    covtrace::config::Config {
        engine: covtrace::config::TraceEngine::Llvm,
        verbose: false,
        color: covtrace::config::Color::Auto,
        varargs: vec![],
        root: "/proj".to_string(),
        timeout_ms: 60_000,
    }
}

fn config_ptrace() -> covtrace::config::Config {
    covtrace::config::Config { engine: covtrace::config::TraceEngine::Ptrace, ..config_llvm() }
}
