//! The coverage state machine.
//!
//! One controlling loop drives the traced process from launch to
//! termination.  All blocking operating-system work — waiting for a stop
//! signal, waiting for a child's exit, scanning the working directory —
//! is done by the embedding program, which reports each observation as an
//! [`Event`]; the machine decides the next state, mutates the trace map,
//! and emits the [`Action`]s the embedding program must carry out (memory
//! patches, single steps, resumes, termination).  Breakpoint bookkeeping is
//! strictly ordered: a hit is counted before the step-over actions for it
//! are emitted, and patches are only requested while the target is stopped.

use crate::artifacts::contains_string;
use crate::artifacts::lemma_contains_view;
use crate::artifacts::new_artifact_views;
use crate::artifacts::new_artifacts;
use crate::artifacts::views_of;
use crate::breakpoint::armed;
use crate::breakpoint::distinct_points;
use crate::breakpoint::saved_byte;
use crate::breakpoint::wf_table;
use crate::breakpoint::BreakpointSet;
use crate::traces::addr_index;
use crate::traces::has_addr;
use crate::traces::has_key;
use crate::traces::hits_monotone;
use crate::traces::key_index;
use crate::traces::same_skeleton;
use crate::traces::wf_traces;
use crate::traces::Trace;
use crate::traces::TraceMap;
use vstd::prelude::*;

verus! {

/// Synthetic exit code reported when an OS-level trace operation failed
/// mid-run; the partially built trace map is still returned.
pub const EXIT_TRACE_FAILURE: i32 = -1;

/// Synthetic exit code reported when arming the breakpoints failed before
/// the run could start.
pub const EXIT_ARM_FAILURE: i32 = -2;

/// Synthetic exit code carried by the terminal state after a cancellation.
pub const EXIT_CANCELLED: i32 = -3;

/// One parsed line-hit record from a profile artifact.
pub struct LineRecord {
    /// Path of the source file the record refers to.
    pub file: String,
    /// Line number within the file.
    pub line: u64,
    /// Hits recorded for the line.
    pub hits: u64,
}

/// The parsed content of one profile artifact.
pub struct ArtifactHits {
    /// File name of the artifact within the working directory.
    pub name: String,
    /// Its line-hit records.
    pub records: Vec<LineRecord>,
}

/// An observation the embedding program reports to the machine.
pub enum Event {
    /// The traced process stopped on a trap at this address.
    Stopped(u64),
    /// The process exited with this code.
    Exited(i32),
    /// An OS-level trace operation (signal, read, write, wait) failed;
    /// non-retryable.
    TraceError,
    /// The configured wall-clock deadline passed.
    Timeout,
    /// The post-run working-directory listing together with the parsed
    /// content of the artifacts the embedding program chose to parse.
    Artifacts {
        /// File names found in the working directory after the run.
        listing: Vec<String>,
        /// Parsed artifacts by name; entries whose name is not a new
        /// artifact of this run are ignored.
        parsed: Vec<ArtifactHits>,
    },
}

/// An operation the embedding program must perform on the traced process.
pub enum Action {
    /// Write the trap instruction at this address.
    Arm(u64),
    /// Write `byte` (the saved original instruction) back at `pc`.
    Restore {
        /// Address to restore.
        pc: u64,
        /// The original instruction byte.
        byte: u8,
    },
    /// Single-step one instruction starting at this address.
    StepOver(u64),
    /// Resume free-running execution.
    Continue,
    /// Forcibly terminate the process; no process may be left stopped.
    Terminate,
}

/// The states of a collection run.  `End` is terminal and carries the
/// process exit code (or a synthetic failure code).
#[derive(Clone, Copy, PartialEq, Eq, Structural, Debug)]
pub enum TestState {
    /// Arm all instrumented addresses (tracer) or do nothing
    /// (instrumentation log).
    Initialise,
    /// Block until the traced process stops or exits.
    WaitForSignal,
    /// Map the trapped address to its source line and count the hit.
    HandleBreakpoint,
    /// Step past the restored instruction and resume.
    SingleStep,
    /// Block until the spawned child terminates.
    WaitInstrumentedExit,
    /// Diff the working directory against the pre-launch snapshot and merge
    /// the new artifacts' records.
    ParseArtifacts,
    /// The run is over; carries the exit code.
    End(i32),
}

impl TestState {
    /// Only the terminal state is finished.
    pub open spec fn spec_is_finished(self) -> bool {
        self is End
    }

    /// Whether the machine is in its terminal state.
    pub fn is_finished(&self) -> (r: bool)
        ensures
            r == self.spec_is_finished(),
    {
        matches!(self, TestState::End(_))
    }

    /// States that block on an outside observation before they can move.
    pub open spec fn spec_needs_event(self) -> bool {
        self is WaitForSignal || self is WaitInstrumentedExit || self is ParseArtifacts
    }

    /// Whether the next step consumes an event.
    pub fn needs_event(&self) -> (r: bool)
        ensures
            r == self.spec_needs_event(),
    {
        matches!(
            self,
            TestState::WaitForSignal | TestState::WaitInstrumentedExit | TestState::ParseArtifacts
        )
    }

    /// Internal states strictly descend in rank until an event is needed;
    /// the driving loop terminates on (events left, rank).
    pub open spec fn rank(self) -> int {
        match self {
            TestState::Initialise => 3,
            TestState::HandleBreakpoint => 2,
            TestState::SingleStep => 1,
            _ => 0,
        }
    }
}

/// The collection context: everything the state machine owns for the run's
/// duration — the trace map being filled, the breakpoint table, what the
/// launch recorded, and the actions awaiting the embedding program.
pub struct CollectionData {
    /// The per-line aggregate being filled.
    pub traces: TraceMap,
    /// Breakpoint patch state (tracer engine).
    pub breakpoints: BreakpointSet,
    /// (address, original byte) pairs to arm, derived from the line
    /// analysis, with the bytes read from the stopped process image.
    pub trap_points: Vec<(u64, u8)>,
    /// Whether this run uses the tracer engine.
    pub is_tracer: bool,
    /// Artifact files present before launch, to exclude from collection.
    pub existing_profraws: Vec<String>,
    /// Trapped address awaiting handling.
    pub pending: Option<u64>,
    /// Exit code captured while waiting for the instrumented child.
    pub exit_code: i32,
    /// Whether the run was cancelled by the deadline.
    pub cancelled: bool,
    /// Operations the embedding program still has to carry out, in order.
    pub actions: Vec<Action>,
}

/// The hit counts of the entries, position for position.
pub open spec fn hits_of(s: Seq<Trace>) -> Seq<u64> {
    s.map_values(|t: Trace| t.hits)
}

/// Arm actions for the first `n` trap points, in order.
pub open spec fn arm_actions(ps: Seq<(u64, u8)>, n: int) -> Seq<Action>
    decreases n,
{
    if n <= 0 {
        Seq::empty()
    } else {
        arm_actions(ps, n - 1).push(Action::Arm(ps[n - 1].0))
    }
}

/// Hit counts after one artifact record lands on the skeleton `skel`:
/// the record's hits are added (saturating) to the entry keyed by its file
/// and line; a record naming no known line is skipped.
pub open spec fn record_applied(skel: Seq<Trace>, h: Seq<u64>, r: LineRecord) -> Seq<u64> {
    if has_key(skel, r.file@, r.line) {
        let k = key_index(skel, r.file@, r.line);
        h.update(k, h[k].saturating_add(r.hits))
    } else {
        h
    }
}

/// Hit counts after the first `n` records of one artifact.
pub open spec fn records_applied(skel: Seq<Trace>, h: Seq<u64>, rs: Seq<LineRecord>, n: int) -> Seq<
    u64,
>
    decreases n,
{
    if n <= 0 {
        h
    } else {
        record_applied(skel, records_applied(skel, h, rs, n - 1), rs[n - 1])
    }
}

/// Hit counts after one parsed artifact: its records land only when its
/// name is among the new artifacts of this run.
pub open spec fn artifact_applied(
    skel: Seq<Trace>,
    h: Seq<u64>,
    ah: ArtifactHits,
    names: Seq<Seq<char>>,
) -> Seq<u64> {
    if names.contains(ah.name@) {
        records_applied(skel, h, ah.records@, ah.records@.len() as int)
    } else {
        h
    }
}

/// Hit counts after the first `n` parsed artifacts.
pub open spec fn artifacts_applied(
    skel: Seq<Trace>,
    h: Seq<u64>,
    parsed: Seq<ArtifactHits>,
    names: Seq<Seq<char>>,
    n: int,
) -> Seq<u64>
    decreases n,
{
    if n <= 0 {
        h
    } else {
        artifact_applied(
            skel,
            artifacts_applied(skel, h, parsed, names, n - 1),
            parsed[n - 1],
            names,
        )
    }
}

/// Keys and their indices agree between maps with the same skeleton.
pub proof fn lemma_key_same_skeleton(a: Seq<Trace>, b: Seq<Trace>, f: Seq<char>, l: u64)
    requires
        wf_traces(a),
        same_skeleton(a, b),
    ensures
        has_key(a, f, l) == has_key(b, f, l),
        has_key(a, f, l) ==> key_index(a, f, l) == key_index(b, f, l),
{
    if has_key(a, f, l) {
        let i = choose|i: int| 0 <= i < a.len() && (#[trigger] a[i]).file@ == f && a[i].line == l;
        assert(b[i].file@ == f && b[i].line == l);
        assert(has_key(b, f, l));
        let ka = key_index(a, f, l);
        assert(a[ka].file@ == f && a[ka].line == l);
        let kb = key_index(b, f, l);
        assert(b[kb].file@ == f && b[kb].line == l);
        assert(a[kb].file@ == f && a[kb].line == l);
        assert(ka == kb);
    }
    if has_key(b, f, l) {
        let i = choose|i: int| 0 <= i < b.len() && (#[trigger] b[i]).file@ == f && b[i].line == l;
        assert(a[i].file@ == f && a[i].line == l);
        assert(has_key(a, f, l));
    }
}

/// Components of the context that no step ever changes.
pub open spec fn same_run_setup(a: CollectionData, b: CollectionData) -> bool {
    &&& b.trap_points == a.trap_points
    &&& b.is_tracer == a.is_tracer
    &&& b.existing_profraws == a.existing_profraws
}

impl TestState {
    /// Performs one state transition.  Waiting states consume the supplied
    /// event; internal states ignore it.  The trace map only ever grows,
    /// and every emitted action is appended behind the ones already queued.
    pub fn step(self, data: &mut CollectionData, event: Option<&Event>) -> (next: TestState)
        requires
            !self.spec_is_finished(),
            wf_traces(old(data).traces.traces@),
            wf_table(old(data).breakpoints.table@),
            self.spec_needs_event() ==> event is Some,
            self is Initialise ==> old(data).breakpoints.table@.len() == 0,
        ensures
            wf_traces(final(data).traces.traces@),
            wf_table(final(data).breakpoints.table@),
            same_skeleton(old(data).traces.traces@, final(data).traces.traces@),
            hits_monotone(old(data).traces.traces@, final(data).traces.traces@),
            same_run_setup(*old(data), *final(data)),
            // initialisation: arm everything or fail into the terminal state
            self is Initialise && old(data).is_tracer ==> (if distinct_points(
                old(data).trap_points@,
            ) {
                &&& next == TestState::WaitForSignal
                &&& final(data).breakpoints.table@.len() == old(data).trap_points@.len()
                &&& (forall|k: int|
                    0 <= k < old(data).trap_points@.len()
                        ==> (#[trigger] final(data).breakpoints.table@[k]).pc
                        == old(data).trap_points@[k].0
                        && final(data).breakpoints.table@[k].data == old(data).trap_points@[k].1
                        && final(data).breakpoints.table@[k].enabled)
                &&& final(data).actions@ == old(data).actions@ + arm_actions(
                    old(data).trap_points@,
                    old(data).trap_points@.len() as int,
                )
                &&& final(data).traces == old(data).traces
                &&& final(data).cancelled == old(data).cancelled
                &&& final(data).pending == old(data).pending
                &&& final(data).exit_code == old(data).exit_code
            } else {
                &&& next == TestState::End(EXIT_ARM_FAILURE)
                &&& final(data).actions@ == old(data).actions@
                &&& final(data).traces == old(data).traces
                &&& final(data).cancelled == old(data).cancelled
            }),
            self is Initialise && !old(data).is_tracer ==> next == TestState::WaitInstrumentedExit
                && *final(data) == *old(data),
            // waiting for a stop signal
            self is WaitForSignal ==> (match event {
                Some(e) => match *e {
                    Event::Stopped(a) => next == TestState::HandleBreakpoint && final(data).pending
                        == Some(a) && final(data).traces == old(data).traces && final(data).actions
                        == old(data).actions && final(data).breakpoints == old(data).breakpoints
                        && final(data).cancelled == old(data).cancelled && final(data).exit_code
                        == old(data).exit_code,
                    Event::Exited(c) => next == TestState::End(c) && *final(data) == *old(data),
                    Event::TraceError => next == TestState::End(EXIT_TRACE_FAILURE) && *final(data)
                        == *old(data),
                    Event::Timeout => next == TestState::End(EXIT_CANCELLED) && final(data).cancelled && final(data).actions@ == old(data).actions@.push(
                        Action::Terminate,
                    ) && final(data).traces == old(data).traces && final(data).breakpoints == old(data).breakpoints && final(data).exit_code == old(data).exit_code,
                    Event::Artifacts { .. } => next == TestState::WaitForSignal && *final(data)
                        == *old(data),
                },
                None => false,
            }),
            // counting a hit and stepping over the trap
            self is HandleBreakpoint ==> (match old(data).pending {
                Some(a) => {
                    &&& next == TestState::SingleStep
                    &&& final(data).pending is None
                    &&& final(data).cancelled == old(data).cancelled
                    &&& final(data).exit_code == old(data).exit_code
                    &&& (if has_addr(old(data).traces.traces@, a) {
                        let k = addr_index(old(data).traces.traces@, a);
                        hits_of(final(data).traces.traces@) == hits_of(
                            old(data).traces.traces@,
                        ).update(k, old(data).traces.traces@[k].hits.saturating_add(1))
                    } else {
                        hits_of(final(data).traces.traces@) == hits_of(old(data).traces.traces@)
                    })
                    &&& final(data).breakpoints.table@ =~= old(data).breakpoints.table@
                    &&& (if armed(old(data).breakpoints.table@, a) {
                        final(data).actions@ == old(data).actions@.push(
                            Action::Restore { pc: a, byte: saved_byte(old(data).breakpoints.table@, a) },
                        ).push(Action::StepOver(a)).push(Action::Arm(a))
                    } else {
                        final(data).actions@ == old(data).actions@
                    })
                },
                None => next == TestState::SingleStep && *final(data) == *old(data),
            }),
            // resuming free-running execution
            self is SingleStep ==> next == TestState::WaitForSignal && final(data).actions@ == old(data).actions@.push(Action::Continue) && final(data).traces == old(data).traces && final(data).breakpoints == old(data).breakpoints && final(data).pending == old(data).pending
                && final(data).cancelled == old(data).cancelled && final(data).exit_code == old(data).exit_code,
            // waiting for the instrumented child to finish
            self is WaitInstrumentedExit ==> (match event {
                Some(e) => match *e {
                    Event::Exited(c) => next == TestState::ParseArtifacts && final(data).exit_code
                        == c && final(data).traces == old(data).traces && final(data).actions
                        == old(data).actions && final(data).cancelled == old(data).cancelled
                        && final(data).pending == old(data).pending && final(data).breakpoints
                        == old(data).breakpoints,
                    Event::TraceError => next == TestState::End(EXIT_TRACE_FAILURE) && *final(data)
                        == *old(data),
                    Event::Timeout => next == TestState::End(EXIT_CANCELLED) && final(data).cancelled && final(data).actions@ == old(data).actions@.push(
                        Action::Terminate,
                    ) && final(data).traces == old(data).traces && final(data).exit_code == old(data).exit_code,
                    _ => next == TestState::WaitInstrumentedExit && *final(data) == *old(data),
                },
                None => false,
            }),
            // harvesting this run's artifacts
            self is ParseArtifacts ==> (match event {
                Some(e) => match *e {
                    Event::Artifacts { listing, parsed } => {
                        let names = new_artifact_views(
                            views_of(listing@),
                            views_of(old(data).existing_profraws@),
                            listing@.len() as int,
                        );
                        &&& next == TestState::End(old(data).exit_code)
                        &&& hits_of(final(data).traces.traces@) == artifacts_applied(
                            old(data).traces.traces@,
                            hits_of(old(data).traces.traces@),
                            parsed@,
                            names,
                            parsed@.len() as int,
                        )
                        &&& final(data).actions == old(data).actions
                        &&& final(data).cancelled == old(data).cancelled
                        &&& final(data).exit_code == old(data).exit_code
                    },
                    _ => next == TestState::ParseArtifacts && *final(data) == *old(data),
                },
                None => false,
            }),
    {
        match self {
            TestState::Initialise => {
                if data.is_tracer {
                    let ghost pre = *data;
                    match data.breakpoints.arm_all(&data.trap_points) {
                        Ok(_) => {
                            let ghost bp_after = data.breakpoints;
                            proof {
                                assert(data.actions@ =~= pre.actions@ + arm_actions(
                                    pre.trap_points@,
                                    0,
                                ));
                            }
                            let mut i: usize = 0;
                            while i < data.trap_points.len()
                                invariant
                                    i <= data.trap_points@.len(),
                                    data.trap_points == pre.trap_points,
                                    data.traces == pre.traces,
                                    data.is_tracer == pre.is_tracer,
                                    data.existing_profraws == pre.existing_profraws,
                                    data.pending == pre.pending,
                                    data.exit_code == pre.exit_code,
                                    data.cancelled == pre.cancelled,
                                    data.breakpoints == bp_after,
                                    wf_table(data.breakpoints.table@),
                                    wf_traces(data.traces.traces@),
                                    data.actions@ == pre.actions@ + arm_actions(
                                        pre.trap_points@,
                                        i as int,
                                    ),
                                decreases data.trap_points@.len() - i,
                            {
                                let pc = data.trap_points[i].0;
                                data.actions.push(Action::Arm(pc));
                                proof {
                                    assert(data.actions@ =~= pre.actions@ + arm_actions(
                                        pre.trap_points@,
                                        i + 1 as int,
                                    ));
                                }
                                i += 1;
                            }
                            TestState::WaitForSignal
                        },
                        Err(_) => TestState::End(EXIT_ARM_FAILURE),
                    }
                } else {
                    TestState::WaitInstrumentedExit
                }
            },
            TestState::WaitForSignal => {
                match event {
                    Some(ev) => match ev {
                        Event::Stopped(a) => {
                            data.pending = Some(*a);
                            TestState::HandleBreakpoint
                        },
                        Event::Exited(c) => TestState::End(*c),
                        Event::TraceError => TestState::End(EXIT_TRACE_FAILURE),
                        Event::Timeout => {
                            data.cancelled = true;
                            data.actions.push(Action::Terminate);
                            TestState::End(EXIT_CANCELLED)
                        },
                        Event::Artifacts { .. } => TestState::WaitForSignal,
                    },
                    None => TestState::WaitForSignal,
                }
            },
            TestState::HandleBreakpoint => {
                match data.pending {
                    Some(a) => {
                        data.pending = None;
                        let ghost pre_traces = data.traces.traces@;
                        let found = data.traces.increment_hit(a);
                        proof {
                            if found {
                                let k = addr_index(pre_traces, a);
                                assert(hits_of(data.traces.traces@) =~= hits_of(pre_traces).update(
                                    k,
                                    pre_traces[k].hits.saturating_add(1),
                                ));
                            } else {
                                assert(hits_of(data.traces.traces@) =~= hits_of(pre_traces));
                            }
                        }
                        match data.breakpoints.step_over(a) {
                            Ok(byte) => {
                                data.actions.push(Action::Restore { pc: a, byte });
                                data.actions.push(Action::StepOver(a));
                                data.actions.push(Action::Arm(a));
                            },
                            Err(_) => {},
                        }
                        TestState::SingleStep
                    },
                    None => TestState::SingleStep,
                }
            },
            TestState::SingleStep => {
                data.actions.push(Action::Continue);
                TestState::WaitForSignal
            },
            TestState::WaitInstrumentedExit => {
                match event {
                    Some(ev) => match ev {
                        Event::Exited(c) => {
                            data.exit_code = *c;
                            TestState::ParseArtifacts
                        },
                        Event::TraceError => TestState::End(EXIT_TRACE_FAILURE),
                        Event::Timeout => {
                            data.cancelled = true;
                            data.actions.push(Action::Terminate);
                            TestState::End(EXIT_CANCELLED)
                        },
                        _ => TestState::WaitInstrumentedExit,
                    },
                    None => TestState::WaitInstrumentedExit,
                }
            },
            TestState::ParseArtifacts => {
                match event {
                    Some(ev) => match ev {
                        Event::Artifacts { listing, parsed } => {
                            let ghost pre = *data;
                            let ghost skel = data.traces.traces@;
                            let ghost h0 = hits_of(data.traces.traces@);
                            let fresh = new_artifacts(listing, &data.existing_profraws);
                            let ghost names = views_of(fresh@);
                            let mut ai: usize = 0;
                            while ai < parsed.len()
                                invariant
                                    ai <= parsed@.len(),
                                    wf_traces(skel),
                                    same_skeleton(skel, data.traces.traces@),
                                    wf_traces(data.traces.traces@),
                                    wf_table(data.breakpoints.table@),
                                    data.breakpoints == pre.breakpoints,
                                    data.actions == pre.actions,
                                    data.pending == pre.pending,
                                    data.exit_code == pre.exit_code,
                                    data.cancelled == pre.cancelled,
                                    data.trap_points == pre.trap_points,
                                    data.is_tracer == pre.is_tracer,
                                    data.existing_profraws == pre.existing_profraws,
                                    names == views_of(fresh@),
                                    hits_monotone(skel, data.traces.traces@),
                                    hits_of(data.traces.traces@) == artifacts_applied(
                                        skel,
                                        h0,
                                        parsed@,
                                        names,
                                        ai as int,
                                    ),
                                    h0 == hits_of(skel),
                                decreases parsed@.len() - ai,
                            {
                                let ghost h_before = hits_of(data.traces.traces@);
                                let ah = &parsed[ai];
                                let is_fresh = contains_string(&fresh, &ah.name);
                                proof {
                                    lemma_contains_view(fresh@, ah.name@);
                                }
                                if is_fresh {
                                    let mut ri: usize = 0;
                                    while ri < ah.records.len()
                                        invariant
                                            ri <= ah.records@.len(),
                                            wf_traces(skel),
                                            same_skeleton(skel, data.traces.traces@),
                                            wf_traces(data.traces.traces@),
                                            wf_table(data.breakpoints.table@),
                                            data.breakpoints == pre.breakpoints,
                                            data.actions == pre.actions,
                                            data.pending == pre.pending,
                                            data.exit_code == pre.exit_code,
                                            data.cancelled == pre.cancelled,
                                            data.trap_points == pre.trap_points,
                                            data.is_tracer == pre.is_tracer,
                                            data.existing_profraws == pre.existing_profraws,
                                            hits_monotone(skel, data.traces.traces@),
                                            hits_of(data.traces.traces@) == records_applied(
                                                skel,
                                                h_before,
                                                ah.records@,
                                                ri as int,
                                            ),
                                        decreases ah.records@.len() - ri,
                                    {
                                        let rec = &ah.records[ri];
                                        let ghost cur = data.traces.traces@;
                                        proof {
                                            lemma_key_same_skeleton(skel, cur, rec.file@, rec.line);
                                        }
                                        let was = data.traces.record_hits(
                                            &rec.file,
                                            rec.line,
                                            rec.hits,
                                        );
                                        proof {
                                            if was {
                                                let k = key_index(skel, rec.file@, rec.line);
                                                assert(key_index(cur, rec.file@, rec.line) == k);
                                                assert(hits_of(data.traces.traces@) =~= hits_of(
                                                    cur,
                                                ).update(k, cur[k].hits.saturating_add(rec.hits)));
                                            } else {
                                                assert(hits_of(data.traces.traces@) =~= hits_of(
                                                    cur,
                                                ));
                                            }
                                        }
                                        ri += 1;
                                    }
                                }
                                proof {
                                    assert(hits_of(data.traces.traces@) == artifact_applied(
                                        skel,
                                        h_before,
                                        parsed@[ai as int],
                                        names,
                                    ));
                                }
                                ai += 1;
                            }
                            TestState::End(data.exit_code)
                        },
                        _ => TestState::ParseArtifacts,
                    },
                    None => TestState::ParseArtifacts,
                }
            },
            TestState::End(c) => TestState::End(c),
        }
    }
}

} // verus!
