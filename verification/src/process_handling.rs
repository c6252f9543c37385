//! Launching a test binary and collecting its coverage.
//!
//! The dispatcher selects an engine, prepares the child's environment and
//! command line, and wraps the spawned process in a handle; the collector
//! builds the trace map skeleton, drives the state machine over the run's
//! events to completion, and returns the populated map with the exit code.
//! The operating-system work itself — spawning, tracing, waiting, reading
//! the working directory — is done by the embedding program, which hands
//! its observations in as plain values.

use crate::artifacts::filter_profraws;
use crate::artifacts::new_artifact_views;
use crate::artifacts::profraw_views;
use crate::artifacts::views_of;
use crate::breakpoint::distinct_points;
use crate::breakpoint::wf_table;
use crate::breakpoint::BreakpointSet;
use crate::config::Color;
use crate::config::Config;
use crate::config::Platform;
use crate::config::RunError;
use crate::config::TestBinary;
use crate::config::TraceEngine;
use crate::statemachine::artifacts_applied;
use crate::statemachine::ArtifactHits;
use crate::statemachine::LineRecord;
use crate::statemachine::hits_of;
use crate::statemachine::lemma_key_same_skeleton;
use crate::statemachine::record_applied;
use crate::statemachine::records_applied;
use crate::statemachine::CollectionData;
use crate::statemachine::Event;
use crate::statemachine::TestState;
use crate::statemachine::EXIT_ARM_FAILURE;
use crate::statemachine::EXIT_TRACE_FAILURE;
use crate::traces::addr_index;
use crate::traces::covers;
use crate::traces::coverable_line;
use crate::traces::generate_tracemap;
use crate::traces::has_addr;
use crate::traces::has_key;
use crate::traces::key_index;
use crate::traces::same_skeleton;
use crate::traces::wf_analysis;
use crate::traces::wf_traces;
use crate::traces::LineAnalysis;
use crate::traces::Trace;
use crate::traces::TraceMap;
use vstd::prelude::*;

verus! {

/// A process under measurement: either a raw traced process id (tracer
/// engine) or a spawned child with its pre-launch artifact snapshot
/// (instrumentation-log engine).
pub enum TestHandle {
    /// A process id under trace.
    Id(u64),
    /// A spawned self-reporting child.
    Process(RunningProcessHandle),
}

/// A spawned child of the instrumentation-log engine.
pub struct RunningProcessHandle {
    /// Path of the test executable, used to map counters back to lines.
    pub path: String,
    /// Process id of the child; its exit status decides the run's code.
    pub pid: u64,
    /// Profile artifacts already in the working directory at launch, kept
    /// so stale results of earlier runs are not picked up.
    pub existing_profraws: Vec<String>,
}

impl RunningProcessHandle {
    /// Wraps a freshly spawned child, snapshotting the profile artifacts
    /// among `dir_files`, the file names the embedding program read from
    /// the working directory at launch time.
    pub fn new(path: String, pid: u64, dir_files: &Vec<String>) -> (r: Self)
        ensures
            r.path == path,
            r.pid == pid,
            views_of(r.existing_profraws@) == profraw_views(
                views_of(dir_files@),
                dir_files@.len() as int,
            ),
    {
        let existing_profraws = filter_profraws(dir_files);
        RunningProcessHandle { path, pid, existing_profraws }
    }
}

impl core::convert::From<u64> for TestHandle {
    /// Wraps a raw traced process id.
    fn from(pid: u64) -> (r: Self)
        ensures
            r == TestHandle::Id(pid),
    {
        TestHandle::Id(pid)
    }
}

impl vstd::std_specs::convert::FromSpecImpl<u64> for TestHandle {
    open spec fn obeys_from_spec() -> bool {
        true
    }

    open spec fn from_spec(pid: u64) -> Self {
        TestHandle::Id(pid)
    }
}

impl core::convert::From<RunningProcessHandle> for TestHandle {
    /// Wraps a spawned self-reporting child.
    fn from(handle: RunningProcessHandle) -> (r: Self)
        ensures
            r == TestHandle::Process(handle),
    {
        TestHandle::Process(handle)
    }
}

impl vstd::std_specs::convert::FromSpecImpl<RunningProcessHandle> for TestHandle {
    open spec fn obeys_from_spec() -> bool {
        true
    }

    open spec fn from_spec(handle: RunningProcessHandle) -> Self {
        TestHandle::Process(handle)
    }
}

/// What became of the embedding program's attempt to start the process.
pub enum SpawnOutcome {
    /// The process is running (or attached and stopped, for the tracer
    /// engine); `dir_files` is the working-directory listing taken at
    /// launch.
    Spawned {
        /// Process id of the child.
        pid: u64,
        /// File names in the working directory at launch.
        dir_files: Vec<String>,
    },
    /// The process could not be started; carries the OS error text.
    Failed(String),
    /// The platform executor declined to run this test.
    Skipped,
}

/// Everything the embedding program needs to start the child: the program,
/// its working directory, arguments and a fully constructed environment.
/// Passing these into the spawn call keeps concurrent launches from racing
/// on ambient process state.
pub struct LaunchSpec {
    /// Path of the executable to run.
    pub program: String,
    /// Working directory for the child.
    pub working_dir: String,
    /// Command-line arguments.
    pub args: Vec<String>,
    /// Environment as (name, value) pairs.
    pub env: Vec<(String, String)>,
}

/// The views of the argument list built for the child: the ignored flag,
/// then the configured extra arguments, then an explicit colour flag when
/// the mode is not automatic.
pub open spec fn args_views(ignored: bool, c: Config) -> Seq<Seq<char>> {
    (if ignored {
        seq!["--ignored"@]
    } else {
        Seq::empty()
    }) + views_of(c.varargs@) + (if c.color != Color::Auto {
        seq!["--color"@, c.color.arg_view()]
    } else {
        Seq::empty()
    })
}

/// The views of an environment pair list.
pub open spec fn env_views(v: Seq<(String, String)>) -> Seq<(Seq<char>, Seq<char>)> {
    v.map_values(|p: (String, String)| (p.0@, p.1@))
}

/// The first `n` author names joined with colons.
pub open spec fn joined_with_colons(vs: Seq<Seq<char>>, n: int) -> Seq<char>
    decreases n,
{
    if n <= 0 {
        Seq::empty()
    } else if n == 1 {
        vs[0]
    } else {
        joined_with_colons(vs, n - 1) + ":"@ + vs[n - 1]
    }
}

/// The environment built for the child: the inherited environment, a
/// backtrace flag when verbose, identifying package metadata when known,
/// and — for the instrumentation-log engine — a profile-file template
/// tagged with the child's process id to avoid collisions between
/// concurrent runs.
pub open spec fn spec_environment(
    inherited: Seq<(String, String)>,
    t: TestBinary,
    c: Config,
) -> Seq<(Seq<char>, Seq<char>)> {
    env_views(inherited) + (if c.verbose {
        seq![("RUST_BACKTRACE"@, "1"@)]
    } else {
        Seq::empty()
    }) + (match t.pkg_name {
        Some(s) => seq![("CARGO_PKG_NAME"@, s@)],
        None => Seq::empty(),
    }) + (match t.pkg_version {
        Some(s) => seq![("CARGO_PKG_VERSION"@, s@)],
        None => Seq::empty(),
    }) + (match t.pkg_authors {
        Some(v) => seq![("CARGO_PKG_AUTHORS"@, joined_with_colons(views_of(v@), v@.len() as int))],
        None => Seq::empty(),
    }) + (match t.manifest_dir {
        Some(s) => seq![("CARGO_MANIFEST_DIR"@, s@)],
        None => Seq::empty(),
    }) + (if c.engine is Llvm {
        seq![("LLVM_PROFILE_FILE"@, t.file_name@ + "_%p.profraw"@)]
    } else {
        Seq::empty()
    })
}

/// Joins author names with colons, as the child's metadata variable wants.
fn join_colon(v: &Vec<String>) -> (r: String)
    ensures
        r@ == joined_with_colons(views_of(v@), v@.len() as int),
{
    let mut r = String::new();
    let mut i: usize = 0;
    while i < v.len()
        invariant
            i <= v@.len(),
            r@ == joined_with_colons(views_of(v@), i as int),
        decreases v.len() - i,
    {
        if i > 0 {
            r.append(":");
        }
        r.append(v[i].as_str());
        proof {
            assert(views_of(v@)[i as int] == v@[i as int]@);
        }
        i += 1;
    }
    r
}

/// Builds the child's argument list.
pub fn build_arguments(ignored: bool, config: &Config) -> (r: Vec<String>)
    ensures
        views_of(r@) == args_views(ignored, *config),
{
    let mut r: Vec<String> = Vec::new();
    if ignored {
        r.push(String::from_str("--ignored"));
    }
    let ghost head = views_of(r@);
    proof {
        assert(head =~= (if ignored {
            seq!["--ignored"@]
        } else {
            Seq::<Seq<char>>::empty()
        }));
    }
    let mut i: usize = 0;
    while i < config.varargs.len()
        invariant
            i <= config.varargs@.len(),
            views_of(r@) == head + views_of(config.varargs@.subrange(0, i as int)),
        decreases config.varargs.len() - i,
    {
        let ghost pre = views_of(r@);
        r.push(config.varargs[i].clone());
        proof {
            assert(views_of(config.varargs@.subrange(0, i + 1 as int)) =~= views_of(
                config.varargs@.subrange(0, i as int),
            ).push(config.varargs@[i as int]@));
            assert(views_of(r@) =~= pre.push(config.varargs@[i as int]@));
            assert(views_of(r@) =~= head + views_of(config.varargs@.subrange(0, i + 1 as int)));
        }
        i += 1;
    }
    proof {
        assert(config.varargs@.subrange(0, config.varargs@.len() as int) =~= config.varargs@);
    }
    if !matches!(config.color, Color::Auto) {
        let ghost pre = views_of(r@);
        r.push(String::from_str("--color"));
        r.push(config.color.arg_value());
        proof {
            assert(views_of(r@) =~= pre + seq!["--color"@, config.color.arg_view()]);
        }
    }
    proof {
        assert(views_of(r@) =~= args_views(ignored, *config));
    }
    r
}

/// Builds the child's environment from the inherited one.
pub fn build_environment(
    inherited: &Vec<(String, String)>,
    test: &TestBinary,
    config: &Config,
) -> (r: Vec<(String, String)>)
    ensures
        env_views(r@) == spec_environment(inherited@, *test, *config),
{
    let mut r: Vec<(String, String)> = Vec::new();
    let mut i: usize = 0;
    while i < inherited.len()
        invariant
            i <= inherited@.len(),
            env_views(r@) == env_views(inherited@.subrange(0, i as int)),
        decreases inherited.len() - i,
    {
        let ghost pre = env_views(r@);
        r.push((inherited[i].0.clone(), inherited[i].1.clone()));
        proof {
            assert(env_views(inherited@.subrange(0, i + 1 as int)) =~= env_views(
                inherited@.subrange(0, i as int),
            ).push((inherited@[i as int].0@, inherited@[i as int].1@)));
            assert(env_views(r@) =~= pre.push((inherited@[i as int].0@, inherited@[i as int].1@)));
        }
        i += 1;
    }
    proof {
        assert(inherited@.subrange(0, inherited@.len() as int) =~= inherited@);
        assert(env_views(r@) =~= env_views(inherited@));
    }
    let ghost base0 = env_views(r@);
    if config.verbose {
        r.push((String::from_str("RUST_BACKTRACE"), String::from_str("1")));
    }
    proof {
        assert(env_views(r@) =~= base0 + (if config.verbose {
            seq![("RUST_BACKTRACE"@, "1"@)]
        } else {
            Seq::<(Seq<char>, Seq<char>)>::empty()
        }));
    }
    let ghost base1 = env_views(r@);
    match &test.pkg_name {
        Some(s) => {
            r.push((String::from_str("CARGO_PKG_NAME"), s.clone()));
        },
        None => {},
    }
    proof {
        assert(env_views(r@) =~= base1 + (match test.pkg_name {
            Some(s) => seq![("CARGO_PKG_NAME"@, s@)],
            None => Seq::<(Seq<char>, Seq<char>)>::empty(),
        }));
    }
    let ghost base2 = env_views(r@);
    match &test.pkg_version {
        Some(s) => {
            r.push((String::from_str("CARGO_PKG_VERSION"), s.clone()));
        },
        None => {},
    }
    proof {
        assert(env_views(r@) =~= base2 + (match test.pkg_version {
            Some(s) => seq![("CARGO_PKG_VERSION"@, s@)],
            None => Seq::<(Seq<char>, Seq<char>)>::empty(),
        }));
    }
    let ghost base3 = env_views(r@);
    match &test.pkg_authors {
        Some(v) => {
            r.push((String::from_str("CARGO_PKG_AUTHORS"), join_colon(v)));
        },
        None => {},
    }
    proof {
        assert(env_views(r@) =~= base3 + (match test.pkg_authors {
            Some(v) => seq![
                ("CARGO_PKG_AUTHORS"@, joined_with_colons(views_of(v@), v@.len() as int)),
            ],
            None => Seq::<(Seq<char>, Seq<char>)>::empty(),
        }));
    }
    let ghost base4 = env_views(r@);
    match &test.manifest_dir {
        Some(s) => {
            r.push((String::from_str("CARGO_MANIFEST_DIR"), s.clone()));
        },
        None => {},
    }
    proof {
        assert(env_views(r@) =~= base4 + (match test.manifest_dir {
            Some(s) => seq![("CARGO_MANIFEST_DIR"@, s@)],
            None => Seq::<(Seq<char>, Seq<char>)>::empty(),
        }));
    }
    let ghost base5 = env_views(r@);
    if matches!(config.engine, TraceEngine::Llvm) {
        let template = test.file_name.clone().concat("_%p.profraw");
        r.push((String::from_str("LLVM_PROFILE_FILE"), template));
    }
    proof {
        assert(env_views(r@) =~= base5 + (if config.engine is Llvm {
            seq![("LLVM_PROFILE_FILE"@, test.file_name@ + "_%p.profraw"@)]
        } else {
            Seq::<(Seq<char>, Seq<char>)>::empty()
        }));
        assert(env_views(r@) =~= spec_environment(inherited@, *test, *config));
    }
    r
}

/// The working directory chosen for the child: the binary's package
/// directory when declared, the configured project root otherwise.
pub open spec fn working_dir_view(t: TestBinary, c: Config) -> Seq<char> {
    match t.manifest_dir {
        Some(d) => d@,
        None => c.root@,
    }
}

/// Decides whether the selected engine can run here and, if so, prepares
/// everything the spawn call needs.  An unsupported engine is refused
/// before anything is launched.
pub fn prepare_launch(
    test: &TestBinary,
    ignored: bool,
    config: &Config,
    platform: &Platform,
    inherited_env: &Vec<(String, String)>,
) -> (r: Result<LaunchSpec, RunError>)
    ensures
        r is Ok <==> platform.spec_supports(config.engine),
        config.engine is Ptrace && !platform.ptrace_supported ==> (r matches Err(e) && e
            is UnsupportedEngine),
        config.engine is Auto ==> (r matches Err(e) && e is Engine),
        r matches Ok(spec) ==> spec.program@ == test.path@ && spec.working_dir@
            == working_dir_view(*test, *config) && views_of(spec.args@) == args_views(
            ignored,
            *config,
        ) && env_views(spec.env@) == spec_environment(inherited_env@, *test, *config),
{
    match config.engine {
        TraceEngine::Auto => Err(RunError::Engine),
        TraceEngine::Ptrace => {
            if !platform.supports(TraceEngine::Ptrace) {
                Err(RunError::UnsupportedEngine)
            } else {
                Ok(build_launch_spec(test, ignored, config, inherited_env))
            }
        },
        TraceEngine::Llvm => Ok(build_launch_spec(test, ignored, config, inherited_env)),
    }
}

/// Assembles the launch description for a supported engine.
fn build_launch_spec(
    test: &TestBinary,
    ignored: bool,
    config: &Config,
    inherited_env: &Vec<(String, String)>,
) -> (r: LaunchSpec)
    ensures
        r.program@ == test.path@,
        r.working_dir@ == working_dir_view(*test, *config),
        views_of(r.args@) == args_views(ignored, *config),
        env_views(r.env@) == spec_environment(inherited_env@, *test, *config),
{
    let working_dir = match &test.manifest_dir {
        Some(d) => d.clone(),
        None => config.root.clone(),
    };
    LaunchSpec {
        program: test.path.clone(),
        working_dir,
        args: build_arguments(ignored, config),
        env: build_environment(inherited_env, test, config),
    }
}

/// Selects the engine and turns the embedding program's spawn outcome into
/// a process handle.  An engine the platform does not support is refused
/// whatever the outcome says: nothing may be spawned for it.
pub fn launch_test(
    test: &TestBinary,
    config: &Config,
    ignored: bool,
    platform: &Platform,
    outcome: &SpawnOutcome,
) -> (r: Result<Option<TestHandle>, RunError>)
    ensures
        config.engine is Ptrace && !platform.ptrace_supported ==> (r matches Err(e) && e
            is UnsupportedEngine),
        config.engine is Auto ==> (r matches Err(e) && e is Engine),
        platform.spec_supports(config.engine) ==> match *outcome {
            SpawnOutcome::Skipped => r matches Ok(h) && h is None,
            SpawnOutcome::Failed(_) => r matches Err(e) && e is SpawnFailure,
            SpawnOutcome::Spawned { pid, dir_files } => r matches Ok(oh) && oh matches Some(h)
                && (config.engine is Ptrace ==> h == TestHandle::Id(pid)) && (config.engine is Llvm
                ==> (h matches TestHandle::Process(p) && p.pid == pid && p.path@ == test.path@
                && views_of(p.existing_profraws@) == profraw_views(
                views_of(dir_files@),
                dir_files@.len() as int,
            ))),
        },
{
    match config.engine {
        TraceEngine::Auto => Err(RunError::Engine),
        TraceEngine::Ptrace => {
            if !platform.supports(TraceEngine::Ptrace) {
                Err(RunError::UnsupportedEngine)
            } else {
                match outcome {
                    SpawnOutcome::Skipped => Ok(None),
                    SpawnOutcome::Failed(m) => Err(RunError::SpawnFailure(m.clone())),
                    SpawnOutcome::Spawned { pid, .. } => Ok(Some(TestHandle::Id(*pid))),
                }
            }
        },
        TraceEngine::Llvm => {
            match outcome {
                SpawnOutcome::Skipped => Ok(None),
                SpawnOutcome::Failed(m) => Err(RunError::SpawnFailure(m.clone())),
                SpawnOutcome::Spawned { pid, dir_files } => {
                    let handle = RunningProcessHandle::new(test.path.clone(), *pid, dir_files);
                    Ok(Some(TestHandle::Process(handle)))
                },
            }
        },
    }
}

} // verus!

verus! {

/// An event that ends a wait: the process exited, tracing failed, or the
/// deadline passed.
pub open spec fn is_terminal(e: Event) -> bool {
    e is Exited || e is TraceError || e is Timeout
}

/// No terminal event among the first `n`.
pub open spec fn no_terminal_before(events: Seq<Event>, n: int) -> bool {
    forall|j: int| 0 <= j < n ==> !is_terminal(#[trigger] events[j])
}

/// Index of the first terminal event at or after `j`; the length if none.
pub open spec fn first_terminal_from(events: Seq<Event>, j: int) -> int
    decreases events.len() - j,
{
    if j < 0 || j >= events.len() {
        events.len() as int
    } else if is_terminal(events[j]) {
        j
    } else {
        first_terminal_from(events, j + 1)
    }
}

/// Index of the first directory-scan event at or after `j`; the length if
/// none.
pub open spec fn first_artifacts_from(events: Seq<Event>, j: int) -> int
    decreases events.len() - j,
{
    if j < 0 || j >= events.len() {
        events.len() as int
    } else if events[j] is Artifacts {
        j
    } else {
        first_artifacts_from(events, j + 1)
    }
}

/// Skipping a terminal-free stretch does not move the first terminal.
pub proof fn lemma_first_terminal_skip(events: Seq<Event>, from: int, to: int)
    requires
        0 <= from <= to <= events.len(),
        forall|j: int| from <= j < to ==> !is_terminal(#[trigger] events[j]),
    ensures
        first_terminal_from(events, from) == first_terminal_from(events, to),
    decreases to - from,
{
    if from < to {
        assert(!is_terminal(events[from]));
        lemma_first_terminal_skip(events, from + 1, to);
    }
}

/// Skipping a scan-free stretch does not move the first scan event.
pub proof fn lemma_first_artifacts_skip(events: Seq<Event>, from: int, to: int)
    requires
        0 <= from <= to <= events.len(),
        forall|j: int| from <= j < to ==> !((#[trigger] events[j]) is Artifacts),
    ensures
        first_artifacts_from(events, from) == first_artifacts_from(events, to),
    decreases to - from,
{
    if from < to {
        lemma_first_artifacts_skip(events, from + 1, to);
    }
}

/// The first terminal index lies between `j` and the length.
pub proof fn lemma_first_terminal_bounds(events: Seq<Event>, j: int)
    requires
        0 <= j <= events.len(),
    ensures
        j <= first_terminal_from(events, j) <= events.len(),
    decreases events.len() - j,
{
    if j < events.len() && !is_terminal(events[j]) {
        lemma_first_terminal_bounds(events, j + 1);
    }
}

/// How often the first `n` events report a stop on an address in `addrs`.
pub open spec fn stop_count(events: Seq<Event>, n: int, addrs: Seq<u64>) -> nat
    decreases n,
{
    if n <= 0 {
        0
    } else {
        stop_count(events, n - 1, addrs) + (match events[n - 1] {
            Event::Stopped(a) => if addrs.contains(a) {
                1nat
            } else {
                0nat
            },
            _ => 0nat,
        })
    }
}

/// At most one stop is counted per event.
pub proof fn lemma_stop_count_bound(events: Seq<Event>, n: int, addrs: Seq<u64>)
    requires
        n >= 0,
    ensures
        stop_count(events, n, addrs) <= n,
    decreases n,
{
    if n > 0 {
        lemma_stop_count_bound(events, n - 1, addrs);
    }
}

/// A run that reports no stop leaves every count at zero.
pub proof fn lemma_stop_count_no_stops(events: Seq<Event>, n: int, addrs: Seq<u64>)
    requires
        0 <= n <= events.len(),
        forall|j: int| 0 <= j < n ==> !((#[trigger] events[j]) is Stopped),
    ensures
        stop_count(events, n, addrs) == 0,
    decreases n,
{
    if n > 0 {
        lemma_stop_count_no_stops(events, n - 1, addrs);
    }
}

/// The map is exactly the skeleton the analysis prescribes: one entry per
/// coverable line, each entry backed by its line's addresses.
pub open spec fn matches_analysis(m: Seq<Trace>, a: Seq<LineAnalysis>) -> bool {
    &&& wf_traces(m)
    &&& (forall|t: int|
        0 <= t < m.len() ==> covers(a, (#[trigger] m[t]).file@, m[t].line, m[t].addresses@))
    &&& (forall|f: Seq<char>, l: u64| #[trigger] coverable_line(a, f, l) ==> has_key(m, f, l))
}

/// Hit counts equal the number of stops reported on each entry's
/// addresses among the first `n` events.
pub open spec fn tracer_hits(m: Seq<Trace>, events: Seq<Event>, n: int) -> bool {
    forall|t: int|
        0 <= t < m.len() ==> (#[trigger] m[t]).hits == stop_count(events, n, m[t].addresses@)
}

/// Every entry still shows zero hits.
pub open spec fn all_zero(m: Seq<Trace>) -> bool {
    forall|t: int| 0 <= t < m.len() ==> (#[trigger] m[t]).hits == 0
}

/// A sequence of `n` zero counts.
pub open spec fn zero_hits(n: int) -> Seq<u64> {
    Seq::new(n as nat, |i: int| 0u64)
}

/// What a tracer-engine run returns, as a function of the line analysis,
/// the trap points and the events the embedding program observed: the
/// first terminal event decides the exit code, and every entry's hit count
/// equals the stops reported on its addresses up to that point.  A run
/// whose events end before a terminal one, or end in cancellation, is a
/// timeout; a failed arming ends the run before it starts, with the
/// skeleton intact.
pub open spec fn tracer_result(
    r: Result<(TraceMap, i32), RunError>,
    a: Seq<LineAnalysis>,
    tps: Seq<(u64, u8)>,
    events: Seq<Event>,
) -> bool {
    let k = first_terminal_from(events, 0);
    &&& (!distinct_points(tps) ==> (r matches Ok((m, code)) && code == EXIT_ARM_FAILURE
        && matches_analysis(m.traces@, a) && all_zero(m.traces@)))
    &&& (distinct_points(tps) ==> {
        &&& (k == events.len() ==> (r matches Err(e) && e is Timeout))
        &&& (k < events.len() ==> (match events[k] {
            Event::Exited(c) => r matches Ok((m, code)) && code == c && matches_analysis(
                m.traces@,
                a,
            ) && tracer_hits(m.traces@, events, k),
            Event::TraceError => r matches Ok((m, code)) && code == EXIT_TRACE_FAILURE
                && matches_analysis(m.traces@, a) && tracer_hits(m.traces@, events, k),
            Event::Timeout => r matches Err(e) && e is Timeout,
            _ => true,
        }))
    })
}

/// What an instrumentation-log run returns: the first terminal event
/// decides the child's exit code; the first directory scan after it decides
/// the hits, namely the fold of the records of exactly those scanned
/// artifacts that are new with respect to the pre-launch snapshot.
pub open spec fn instrumented_result(
    r: Result<(TraceMap, i32), RunError>,
    a: Seq<LineAnalysis>,
    existing_views: Seq<Seq<char>>,
    events: Seq<Event>,
) -> bool {
    let k = first_terminal_from(events, 0);
    &&& (k == events.len() ==> (r matches Err(e) && e is Timeout))
    &&& (k < events.len() ==> (match events[k] {
        Event::Timeout => r matches Err(e) && e is Timeout,
        Event::TraceError => r matches Ok((m, code)) && code == EXIT_TRACE_FAILURE
            && matches_analysis(m.traces@, a) && all_zero(m.traces@),
        Event::Exited(c) => {
            let k2 = first_artifacts_from(events, k + 1);
            &&& (k2 == events.len() ==> (r matches Err(e) && e is Timeout))
            &&& (k2 < events.len() ==> (match events[k2] {
                Event::Artifacts { listing, parsed } => r matches Ok((m, code)) && code == c
                    && matches_analysis(m.traces@, a) && hits_of(m.traces@) == artifacts_applied(
                    m.traces@,
                    zero_hits(m.traces@.len() as int),
                    parsed@,
                    new_artifact_views(
                        views_of(listing@),
                        existing_views,
                        listing@.len() as int,
                    ),
                    parsed@.len() as int,
                ),
                _ => true,
            }))
        },
        _ => true,
    }))
}

} // verus!

verus! {

/// Addresses and their entry indices agree between maps with the same
/// skeleton.
pub proof fn lemma_addr_same_skeleton(a: Seq<Trace>, b: Seq<Trace>, x: u64)
    requires
        wf_traces(a),
        same_skeleton(a, b),
    ensures
        has_addr(a, x) == has_addr(b, x),
        has_addr(a, x) ==> addr_index(a, x) == addr_index(b, x),
{
    if has_addr(a, x) {
        let i = choose|i: int| 0 <= i < a.len() && (#[trigger] a[i]).addresses@.contains(x);
        assert(b[i].addresses@.contains(x));
        assert(has_addr(b, x));
        let ka = addr_index(a, x);
        assert(a[ka].addresses@.contains(x));
        let kb = addr_index(b, x);
        assert(b[kb].addresses@.contains(x));
        assert(a[kb].addresses@.contains(x));
        assert(ka == kb);
    }
    if has_addr(b, x) {
        let i = choose|i: int| 0 <= i < b.len() && (#[trigger] b[i]).addresses@.contains(x);
        assert(a[i].addresses@.contains(x));
        assert(has_addr(a, x));
    }
}

/// Well-formedness carries over to a map with the same skeleton.
pub proof fn lemma_wf_same_skeleton(a: Seq<Trace>, b: Seq<Trace>)
    requires
        wf_traces(a),
        same_skeleton(a, b),
    ensures
        wf_traces(b),
{
    assert forall|i: int, j: int|
        #![trigger b[i].line, b[j].line]
        0 <= i < j < b.len() implies !(b[i].file@ == b[j].file@ && b[i].line == b[j].line) by {
        assert(a[i].file@ == b[i].file@ && a[i].line == b[i].line);
        assert(a[j].file@ == b[j].file@ && a[j].line == b[j].line);
    }
    assert forall|i: int, j: int, x: u64|
        0 <= i < b.len() && 0 <= j < b.len() && i != j && #[trigger] b[i].addresses@.contains(x)
        implies !(#[trigger] b[j].addresses@.contains(x)) by {
        assert(a[i].addresses@.contains(x));
        assert(!a[j].addresses@.contains(x));
    }
}

/// Analysis correspondence carries over to a map with the same skeleton.
pub proof fn lemma_matches_analysis_same_skeleton(
    a: Seq<LineAnalysis>,
    m0: Seq<Trace>,
    m1: Seq<Trace>,
)
    requires
        matches_analysis(m0, a),
        same_skeleton(m0, m1),
    ensures
        matches_analysis(m1, a),
{
    lemma_wf_same_skeleton(m0, m1);
    assert forall|t: int|
        0 <= t < m1.len() implies covers(a, (#[trigger] m1[t]).file@, m1[t].line, m1[t].addresses@) by {
        assert(covers(a, m0[t].file@, m0[t].line, m0[t].addresses@));
    }
    assert forall|f: Seq<char>, l: u64| #[trigger]
        coverable_line(a, f, l) implies has_key(m1, f, l) by {
        assert(has_key(m0, f, l));
        lemma_key_same_skeleton(m0, m1, f, l);
    }
}

/// A record lands the same way on two maps with the same skeleton.
proof fn lemma_record_applied_same(a: Seq<Trace>, b: Seq<Trace>, h: Seq<u64>, r: LineRecord)
    requires
        wf_traces(a),
        same_skeleton(a, b),
    ensures
        record_applied(a, h, r) == record_applied(b, h, r),
{
    lemma_key_same_skeleton(a, b, r.file@, r.line);
}

/// A record list lands the same way on two maps with the same skeleton.
proof fn lemma_records_applied_same(
    a: Seq<Trace>,
    b: Seq<Trace>,
    h: Seq<u64>,
    rs: Seq<LineRecord>,
    n: int,
)
    requires
        wf_traces(a),
        same_skeleton(a, b),
    ensures
        records_applied(a, h, rs, n) == records_applied(b, h, rs, n),
    decreases n,
{
    if n > 0 {
        lemma_records_applied_same(a, b, h, rs, n - 1);
        lemma_record_applied_same(a, b, records_applied(a, h, rs, n - 1), rs[n - 1]);
    }
}

/// A set of parsed artifacts lands the same way on two maps with the same
/// skeleton.
proof fn lemma_artifacts_applied_same(
    a: Seq<Trace>,
    b: Seq<Trace>,
    h: Seq<u64>,
    parsed: Seq<ArtifactHits>,
    names: Seq<Seq<char>>,
    n: int,
)
    requires
        wf_traces(a),
        same_skeleton(a, b),
    ensures
        artifacts_applied(a, h, parsed, names, n) == artifacts_applied(b, h, parsed, names, n),
    decreases n,
{
    if n > 0 {
        lemma_artifacts_applied_same(a, b, h, parsed, names, n - 1);
        let mid = artifacts_applied(a, h, parsed, names, n - 1);
        if names.contains(parsed[n - 1].name@) {
            lemma_records_applied_same(
                a,
                b,
                mid,
                parsed[n - 1].records@,
                parsed[n - 1].records@.len() as int,
            );
        }
    }
}

/// Copies the trap-point list.
fn copy_points(v: &Vec<(u64, u8)>) -> (r: Vec<(u64, u8)>)
    ensures
        r@ == v@,
{
    let mut r: Vec<(u64, u8)> = Vec::new();
    let mut i: usize = 0;
    while i < v.len()
        invariant
            i <= v.len(),
            r@ == v@.subrange(0, i as int),
        decreases v.len() - i,
    {
        r.push(v[i]);
        proof {
            assert(r@ =~= v@.subrange(0, i + 1 as int));
        }
        i += 1;
    }
    proof {
        assert(r@ =~= v@);
    }
    r
}

/// Builds the initial state and collection context for a run: the machine
/// starts in its initialisation state, owning the trace map, an empty
/// breakpoint table and the handle's pre-launch artifact snapshot.
pub fn create_state_machine(test: TestHandle, traces: TraceMap, trap_points: Vec<(u64, u8)>) -> (r:
    (TestState, CollectionData))
    ensures
        r.0 == TestState::Initialise,
        r.1.traces == traces,
        r.1.trap_points == trap_points,
        r.1.is_tracer == (test is Id),
        (test matches TestHandle::Process(h) ==> r.1.existing_profraws == h.existing_profraws),
        r.1.breakpoints.table@.len() == 0,
        r.1.pending is None,
        r.1.exit_code == 0,
        r.1.cancelled == false,
        r.1.actions@.len() == 0,
{
    let is_tracer = matches!(&test, TestHandle::Id(_));
    let existing_profraws = match test {
        TestHandle::Id(_) => Vec::new(),
        TestHandle::Process(h) => h.existing_profraws,
    };
    let data = CollectionData {
        traces,
        breakpoints: BreakpointSet::new(),
        trap_points,
        is_tracer,
        existing_profraws,
        pending: None,
        exit_code: 0,
        cancelled: false,
        actions: Vec::new(),
    };
    (TestState::Initialise, data)
}

} // verus!

verus! {

/// Hit counts equal the stops reported up to `n`, measured on the
/// skeleton's addresses.
spec fn counts_at(m: Seq<Trace>, skel: Seq<Trace>, events: Seq<Event>, n: int) -> bool {
    forall|t: int|
        0 <= t < m.len() ==> (#[trigger] m[t]).hits == stop_count(events, n, skel[t].addresses@)
}

/// What holds of a finished tracer run: the consumed prefix ends in the
/// terminal event that decided the code, and the counts reflect exactly
/// the stops before it.
spec fn tracer_end_inv(
    c: i32,
    cancelled: bool,
    m: Seq<Trace>,
    skel: Seq<Trace>,
    events: Seq<Event>,
    i: int,
    tps: Seq<(u64, u8)>,
) -> bool {
    if !distinct_points(tps) {
        c == EXIT_ARM_FAILURE && !cancelled && i == 0 && counts_at(m, skel, events, 0)
    } else {
        &&& 1 <= i <= events.len()
        &&& is_terminal(events[i - 1])
        &&& no_terminal_before(events, i - 1)
        &&& counts_at(m, skel, events, i - 1)
        &&& match events[i - 1] {
            Event::Exited(c0) => c == c0 && !cancelled,
            Event::TraceError => c == EXIT_TRACE_FAILURE && !cancelled,
            Event::Timeout => cancelled,
            _ => false,
        }
    }
}

/// What holds of a finished instrumentation-log run.
spec fn instr_end_inv(
    c: i32,
    cancelled: bool,
    m: Seq<Trace>,
    skel: Seq<Trace>,
    events: Seq<Event>,
    i: int,
    existing_views: Seq<Seq<char>>,
) -> bool {
    let ft = first_terminal_from(events, 0);
    &&& ft < i <= events.len()
    &&& match events[ft] {
        Event::TraceError => c == EXIT_TRACE_FAILURE && !cancelled && m == skel,
        Event::Timeout => cancelled,
        Event::Exited(c0) => {
            let ka = first_artifacts_from(events, ft + 1);
            &&& ka == i - 1
            &&& ka < events.len()
            &&& c == c0
            &&& !cancelled
            &&& match events[ka] {
                Event::Artifacts { listing, parsed } => hits_of(m) == artifacts_applied(
                    skel,
                    hits_of(skel),
                    parsed@,
                    new_artifact_views(
                        views_of(listing@),
                        existing_views,
                        listing@.len() as int,
                    ),
                    parsed@.len() as int,
                ),
                _ => false,
            }
        },
        _ => false,
    }
}

/// Collects the coverage data for a launched test: builds the trace map
/// skeleton from the line analysis, then drives the state machine over the
/// events the embedding program observed, and returns the populated map
/// and the exit code.  A run whose events end before the machine reaches
/// its terminal state, or that the deadline cancelled, reports a timeout;
/// the cancellation path orders the process terminated rather than leaving
/// it stopped.
pub fn collect_coverage(
    test: TestHandle,
    analysis: &Vec<LineAnalysis>,
    config: &Config,
    trap_points: &Vec<(u64, u8)>,
    events: &Vec<Event>,
) -> (r: Result<(TraceMap, i32), RunError>)
    requires
        wf_analysis(analysis@),
    ensures
        test is Id ==> tracer_result(r, analysis@, trap_points@, events@),
        test matches TestHandle::Process(h) ==> instrumented_result(
            r,
            analysis@,
            views_of(h.existing_profraws@),
            events@,
        ),
{
    let traces = generate_tracemap(analysis);
    let ghost skel = traces.traces@;
    let ghost eventsq = events@;
    proof {
        assert(matches_analysis(skel, analysis@));
        assert(all_zero(skel));
    }
    let tps = copy_points(trap_points);
    let ghost is_tr = test is Id;
    let (state0, data0) = create_state_machine(test, traces, tps);
    let mut state = state0;
    let mut data = data0;
    let mut i: usize = 0;
    while !state.is_finished()
        invariant
            i <= eventsq.len(),
            eventsq == events@,
            wf_traces(skel),
            all_zero(skel),
            matches_analysis(skel, analysis@),
            wf_traces(data.traces.traces@),
            wf_table(data.breakpoints.table@),
            same_skeleton(skel, data.traces.traces@),
            data.is_tracer == is_tr,
            is_tr == (test is Id),
            data.trap_points@ == trap_points@,
            (test matches TestHandle::Process(h) ==> data.existing_profraws
                == h.existing_profraws),
            is_tr ==> match state {
                TestState::Initialise => i == 0 && data.traces.traces@ == skel
                    && data.breakpoints.table@.len() == 0 && !data.cancelled,
                TestState::WaitForSignal => distinct_points(trap_points@) && no_terminal_before(
                    eventsq,
                    i as int,
                ) && counts_at(data.traces.traces@, skel, eventsq, i as int) && !data.cancelled,
                TestState::SingleStep => distinct_points(trap_points@) && no_terminal_before(
                    eventsq,
                    i as int,
                ) && counts_at(data.traces.traces@, skel, eventsq, i as int) && !data.cancelled,
                TestState::HandleBreakpoint => {
                    &&& distinct_points(trap_points@)
                    &&& 1 <= i <= eventsq.len()
                    &&& no_terminal_before(eventsq, i as int)
                    &&& (eventsq[i - 1] matches Event::Stopped(a) && data.pending == Some(a))
                    &&& counts_at(data.traces.traces@, skel, eventsq, i - 1)
                    &&& !data.cancelled
                },
                TestState::WaitInstrumentedExit => false,
                TestState::ParseArtifacts => false,
                TestState::End(c) => tracer_end_inv(
                    c,
                    data.cancelled,
                    data.traces.traces@,
                    skel,
                    eventsq,
                    i as int,
                    trap_points@,
                ),
            },
            !is_tr ==> match state {
                TestState::Initialise => i == 0 && data.traces.traces@ == skel
                    && data.breakpoints.table@.len() == 0 && !data.cancelled,
                TestState::WaitInstrumentedExit => data.traces.traces@ == skel
                    && no_terminal_before(eventsq, i as int) && !data.cancelled,
                TestState::ParseArtifacts => {
                    let ft = first_terminal_from(eventsq, 0);
                    &&& data.traces.traces@ == skel
                    &&& !data.cancelled
                    &&& 1 <= i <= eventsq.len()
                    &&& ft < i
                    &&& (eventsq[ft] matches Event::Exited(c) && data.exit_code == c)
                    &&& (forall|j: int| ft < j < i ==> !((#[trigger] eventsq[j]) is Artifacts))
                },
                TestState::End(c) => instr_end_inv(
                    c,
                    data.cancelled,
                    data.traces.traces@,
                    skel,
                    eventsq,
                    i as int,
                    views_of(data.existing_profraws@),
                ),
                TestState::WaitForSignal => false,
                TestState::HandleBreakpoint => false,
                TestState::SingleStep => false,
            },
        decreases eventsq.len() - i, state.rank(),
    {
        let ghost prev = state;
        let ghost prev_data = data;
        let ev: Option<&Event>;
        if state.needs_event() {
            if i < events.len() {
                ev = Some(&events[i]);
                i += 1;
            } else {
                proof {
                    if is_tr {
                        lemma_first_terminal_skip(eventsq, 0, eventsq.len() as int);
                    } else {
                        if state is WaitInstrumentedExit {
                            lemma_first_terminal_skip(eventsq, 0, eventsq.len() as int);
                        } else {
                            let ft = first_terminal_from(eventsq, 0);
                            lemma_first_terminal_bounds(eventsq, 0);
                            lemma_first_artifacts_skip(eventsq, ft + 1, eventsq.len() as int);
                        }
                    }
                }
                return Err(RunError::Timeout);
            }
        } else {
            ev = None;
        }
        state = state.step(&mut data, ev);
        proof {
            let m = data.traces.traces@;
            if is_tr {
                if prev is HandleBreakpoint {
                    match eventsq[i - 1] {
                        Event::Stopped(a) => {
                            let p = prev_data.traces.traces@;
                            lemma_addr_same_skeleton(skel, p, a);
                            assert forall|t: int| 0 <= t < m.len() implies (#[trigger] m[t]).hits
                                == stop_count(eventsq, i as int, skel[t].addresses@) by {
                                lemma_stop_count_bound(eventsq, i - 1, skel[t].addresses@);
                                assert(p[t].hits == stop_count(eventsq, i - 1, skel[t].addresses@));
                                assert(m[t].hits == hits_of(m)[t]);
                                assert(p[t].hits == hits_of(p)[t]);
                                if has_addr(skel, a) {
                                    let k = addr_index(skel, a);
                                    assert(skel[k].addresses@.contains(a));
                                    if t == k {
                                        assert(p[k].hits <= i - 1);
                                        assert(i as int <= usize::MAX as int);
                                        assert(hits_of(m)[k] == p[k].hits.saturating_add(1));
                                        assert(m[t].hits == p[t].hits + 1);
                                    } else {
                                        assert(!skel[t].addresses@.contains(a));
                                        assert(hits_of(m)[t] == hits_of(p)[t]);
                                    }
                                } else {
                                    assert(!skel[t].addresses@.contains(a)) by {
                                        if skel[t].addresses@.contains(a) {
                                            assert(has_addr(skel, a));
                                        }
                                    }
                                    assert(hits_of(m)[t] == hits_of(p)[t]);
                                }
                            }
                        },
                        _ => {
                            assert(false);
                        },
                    }
                }
                if prev is WaitForSignal && state is WaitForSignal {
                    // a stray event was ignored; the counts do not move
                    assert forall|t: int| 0 <= t < m.len() implies (#[trigger] m[t]).hits
                        == stop_count(eventsq, i as int, skel[t].addresses@) by {
                        assert(prev_data.traces.traces@[t].hits == stop_count(
                            eventsq,
                            i - 1,
                            skel[t].addresses@,
                        ));
                        assert(m[t] == prev_data.traces.traces@[t]);
                        assert(!(eventsq[i - 1] is Stopped));
                    }
                }
                if prev is Initialise && state is WaitForSignal {
                    assert forall|t: int| 0 <= t < m.len() implies (#[trigger] m[t]).hits
                        == stop_count(eventsq, i as int, skel[t].addresses@) by {
                        assert(m[t].hits == skel[t].hits);
                    }
                }
            } else {
                if prev is WaitInstrumentedExit && !(state is WaitInstrumentedExit) {
                    // the consumed event was terminal: pin the first terminal
                    lemma_first_terminal_skip(eventsq, 0, i - 1);
                }
                if prev is ParseArtifacts && state is End {
                    let ft = first_terminal_from(eventsq, 0);
                    lemma_first_terminal_bounds(eventsq, 0);
                    lemma_first_artifacts_skip(eventsq, ft + 1, i - 1);
                }
            }
        }
    }
    let code: i32 = match state {
        TestState::End(c) => c,
        _ => 0,
    };
    proof {
        let m = data.traces.traces@;
        lemma_matches_analysis_same_skeleton(analysis@, skel, m);
        if is_tr {
            if distinct_points(trap_points@) {
                lemma_first_terminal_skip(eventsq, 0, i - 1);
                assert(first_terminal_from(eventsq, 0) == i - 1);
                assert forall|t: int| 0 <= t < m.len() implies (#[trigger] m[t]).hits
                    == stop_count(eventsq, i - 1, m[t].addresses@) by {
                    assert(m[t].addresses@ == skel[t].addresses@);
                }
            }
        } else {
            let ft = first_terminal_from(eventsq, 0);
            match eventsq[ft] {
                Event::Exited(_) => {
                    let ka = first_artifacts_from(eventsq, ft + 1);
                    match eventsq[ka] {
                        Event::Artifacts { listing, parsed } => {
                            let names = new_artifact_views(
                                views_of(listing@),
                                views_of(data.existing_profraws@),
                                listing@.len() as int,
                            );

                            lemma_artifacts_applied_same(
                                skel,
                                m,
                                hits_of(skel),
                                parsed@,
                                names,
                                parsed@.len() as int,
                            );
                            assert(hits_of(skel) =~= zero_hits(m.len() as int));
                        },
                        _ => {},
                    }
                },
                _ => {},
            }
        }
    }
    if data.cancelled {
        Err(RunError::Timeout)
    } else {
        Ok((data.traces, code))
    }
}

} // verus!

verus! {

/// Runs one test binary under the selected engine and collects its
/// coverage: launches (or refuses an unsupported engine before anything is
/// spawned), then drives the state machine over the observed events.
/// Returns `None` when the test was skipped, the populated trace map and
/// exit code when the run completed, and an error for an unsupported
/// engine, a failed spawn, or a timeout.
pub fn get_test_coverage(
    test: &TestBinary,
    analysis: &Vec<LineAnalysis>,
    config: &Config,
    ignored: bool,
    platform: &Platform,
    outcome: &SpawnOutcome,
    trap_points: &Vec<(u64, u8)>,
    events: &Vec<Event>,
) -> (r: Result<Option<(TraceMap, i32)>, RunError>)
    requires
        wf_analysis(analysis@),
    ensures
        config.engine is Ptrace && !platform.ptrace_supported ==> (r matches Err(e) && e
            is UnsupportedEngine),
        config.engine is Auto ==> (r matches Err(e) && e is Engine),
        platform.spec_supports(config.engine) ==> match *outcome {
            SpawnOutcome::Skipped => r matches Ok(o) && o is None,
            SpawnOutcome::Failed(_) => r matches Err(e) && e is SpawnFailure,
            SpawnOutcome::Spawned { pid, dir_files } => {
                &&& (r matches Ok(o) ==> o is Some)
                &&& (config.engine is Ptrace ==> (match r {
                    Ok(o) => o matches Some(t) && tracer_result(
                        Ok(t),
                        analysis@,
                        trap_points@,
                        events@,
                    ),
                    Err(e) => tracer_result(Err(e), analysis@, trap_points@, events@),
                }))
                &&& (config.engine is Llvm ==> (match r {
                    Ok(o) => o matches Some(t) && instrumented_result(
                        Ok(t),
                        analysis@,
                        profraw_views(views_of(dir_files@), dir_files@.len() as int),
                        events@,
                    ),
                    Err(e) => instrumented_result(
                        Err(e),
                        analysis@,
                        profraw_views(views_of(dir_files@), dir_files@.len() as int),
                        events@,
                    ),
                }))
            },
        },
{
    match launch_test(test, config, ignored, platform, outcome) {
        Err(e) => Err(e),
        Ok(None) => Ok(None),
        Ok(Some(handle)) => {
            match collect_coverage(handle, analysis, config, trap_points, events) {
                Ok(t) => Ok(Some(t)),
                Err(e) => Err(e),
            }
        },
    }
}

} // verus!

verus! {

/// Law: in a trace map built for an analysis, every coverable line owns
/// exactly one entry — one exists, and any two entries keyed by that line
/// are the same entry.
pub proof fn lemma_exactly_one_entry(a: Seq<LineAnalysis>, m: Seq<Trace>, f: Seq<char>, l: u64)
    requires
        matches_analysis(m, a),
        coverable_line(a, f, l),
    ensures
        exists|t: int| 0 <= t < m.len() && (#[trigger] m[t]).file@ == f && m[t].line == l,
        forall|t1: int, t2: int|
            #![trigger m[t1].line, m[t2].line]
            0 <= t1 < m.len() && 0 <= t2 < m.len() && m[t1].file@ == f && m[t1].line == l
                && m[t2].file@ == f && m[t2].line == l ==> t1 == t2,
{
    assert(has_key(m, f, l));
    assert forall|t1: int, t2: int|
        #![trigger m[t1].line, m[t2].line]
        0 <= t1 < m.len() && 0 <= t2 < m.len() && m[t1].file@ == f && m[t1].line == l
            && m[t2].file@ == f && m[t2].line == l implies t1 == t2 by {
        if t1 < t2 {
            assert(!(m[t1].file@ == m[t2].file@ && m[t1].line == m[t2].line));
        }
        if t2 < t1 {
            assert(!(m[t2].file@ == m[t1].file@ && m[t2].line == m[t1].line));
        }
    }
}

} // verus!
