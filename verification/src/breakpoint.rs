//! The breakpoint controller of the tracer engine.
//!
//! The controller owns the patch state: which addresses currently carry a
//! trap instruction and the original instruction byte saved at each.  The
//! actual memory pokes are carried out by the embedding program while the
//! traced process is stopped; this table is the single source of truth for
//! what is patched, so no exit path can leave a dangling patch unaccounted
//! for.  Re-arming an armed address fails loudly rather than double-patching,
//! which would save a trap byte as the "original" instruction.

use vstd::pervasive::VecAdditionalExecFns;
use vstd::prelude::*;

verus! {

/// One patched address: the trap location, the instruction byte it replaced,
/// and whether the trap is currently in place.
pub struct Breakpoint {
    /// Address the trap is written at.
    pub pc: u64,
    /// Original instruction byte saved before patching.
    pub data: u8,
    /// Whether the trap is currently written (armed) or the original byte
    /// has been put back (disarmed).
    pub enabled: bool,
}

/// Why a breakpoint operation was refused.
#[derive(Clone, Copy, PartialEq, Eq, Structural, Debug)]
pub enum BreakpointError {
    /// The address already carries a live trap; arming again would save the
    /// trap byte as the original instruction.
    AlreadyArmed,
    /// The address carries no live trap, so there is nothing to restore or
    /// step over.
    NotArmed,
}

/// Addresses are tracked at most once.
pub open spec fn wf_table(s: Seq<Breakpoint>) -> bool {
    forall|i: int, j: int| #![trigger s[i].pc, s[j].pc] 0 <= i < j < s.len() ==> s[i].pc != s[j].pc
}

/// Some entry tracks `pc`.
pub open spec fn tracks(s: Seq<Breakpoint>, pc: u64) -> bool {
    exists|i: int| 0 <= i < s.len() && (#[trigger] s[i]).pc == pc
}

/// The index of the entry tracking `pc`; meaningful only under `tracks`,
/// unique under `wf_table`.
pub open spec fn pc_index(s: Seq<Breakpoint>, pc: u64) -> int {
    choose|i: int| 0 <= i < s.len() && (#[trigger] s[i]).pc == pc
}

/// A live trap stands at `pc`.
pub open spec fn armed(s: Seq<Breakpoint>, pc: u64) -> bool {
    exists|i: int| 0 <= i < s.len() && (#[trigger] s[i]).pc == pc && s[i].enabled
}

/// The original byte saved for `pc`; meaningful only under `tracks`.
pub open spec fn saved_byte(s: Seq<Breakpoint>, pc: u64) -> u8 {
    s[pc_index(s, pc)].data
}

/// The pairs have pairwise distinct addresses.
pub open spec fn distinct_points(ps: Seq<(u64, u8)>) -> bool {
    forall|i: int, j: int| #![trigger ps[i].0, ps[j].0] 0 <= i < j < ps.len() ==> ps[i].0 != ps[j].0
}

/// The owned table of breakpoint patch state for one traced process.
pub struct BreakpointSet {
    /// The tracked addresses, each at most once.
    pub table: Vec<Breakpoint>,
}

impl BreakpointSet {
    /// An empty table: nothing is patched.
    pub fn new() -> (r: Self)
        ensures
            r.table@.len() == 0,
    {
        BreakpointSet { table: Vec::new() }
    }

    /// Finds the entry tracking `pc`.
    fn find(&self, pc: u64) -> (r: Option<usize>)
        requires
            wf_table(self.table@),
        ensures
            match r {
                Some(i) => i < self.table@.len() && self.table@[i as int].pc == pc && i as int
                    == pc_index(self.table@, pc) && tracks(self.table@, pc),
                None => !tracks(self.table@, pc),
            },
    {
        let mut i: usize = 0;
        while i < self.table.len()
            invariant
                wf_table(self.table@),
                i <= self.table@.len(),
                forall|k: int| 0 <= k < i ==> (#[trigger] self.table@[k]).pc != pc,
            decreases self.table.len() - i,
        {
            if self.table[i].pc == pc {
                proof {
                    let w = pc_index(self.table@, pc);
                    assert(self.table@[w].pc == pc);
                    assert(w == i as int);
                }
                return Some(i);
            }
            i += 1;
        }
        None
    }

    /// Saves `orig` (the instruction byte read at `pc`) and marks a trap as
    /// written there.  Arming an address whose trap is already live fails
    /// loudly; re-arming a disarmed address keeps the byte saved first.
    pub fn arm(&mut self, pc: u64, orig: u8) -> (r: Result<(), BreakpointError>)
        requires
            wf_table(old(self).table@),
        ensures
            wf_table(final(self).table@),
            r is Ok <==> !armed(old(self).table@, pc),
            r is Err ==> final(self).table@ == old(self).table@,
            r is Ok ==> armed(final(self).table@, pc),
            r is Ok && !tracks(old(self).table@, pc) ==> final(self).table@ == old(self).table@.push(
                (Breakpoint { pc, data: orig, enabled: true }),
            ),
            r is Ok && tracks(old(self).table@, pc) ==> final(self).table@ == old(self).table@.update(
                pc_index(old(self).table@, pc),
                (Breakpoint { pc, data: saved_byte(old(self).table@, pc), enabled: true }),
            ),
            forall|q: u64| q != pc ==> armed(final(self).table@, q) == armed(old(self).table@, q),
            tracks(final(self).table@, pc),
    {
        let ghost orig_table = self.table@;
        match self.find(pc) {
            Some(i) => {
                if self.table[i].enabled {
                    proof {
                        assert(armed(orig_table, pc)) by {
                            assert(orig_table[i as int].pc == pc && orig_table[i as int].enabled);
                        }
                        assert(tracks(self.table@, pc)) by {
                            assert(self.table@[i as int].pc == pc);
                        }
                    }
                    Err(BreakpointError::AlreadyArmed)
                } else {
                    let data = self.table[i].data;
                    self.table.set(i, Breakpoint { pc, data, enabled: true });
                    proof {
                        assert(armed(self.table@, pc) && tracks(self.table@, pc)) by {
                            assert(self.table@[i as int].pc == pc && self.table@[i as int].enabled);
                        }
                        assert forall|q: u64| q != pc implies armed(self.table@, q) == armed(
                            orig_table,
                            q,
                        ) by {
                            if armed(orig_table, q) {
                                let w = choose|w: int|
                                    0 <= w < orig_table.len() && (#[trigger] orig_table[w]).pc == q
                                        && orig_table[w].enabled;
                                assert(self.table@[w].pc == q && self.table@[w].enabled);
                            }
                            if armed(self.table@, q) {
                                let w = choose|w: int|
                                    0 <= w < self.table@.len() && (#[trigger] self.table@[w]).pc
                                        == q && self.table@[w].enabled;
                                assert(orig_table[w].pc == q && orig_table[w].enabled);
                            }
                        }
                        assert(!armed(orig_table, pc)) by {
                            if armed(orig_table, pc) {
                                let w = choose|w: int|
                                    0 <= w < orig_table.len() && (#[trigger] orig_table[w]).pc
                                        == pc && orig_table[w].enabled;
                                assert(w == i as int);
                            }
                        }
                    }
                    Ok(())
                }
            },
            None => {
                self.table.push(Breakpoint { pc, data: orig, enabled: true });
                proof {
                    assert(self.table@[self.table@.len() - 1].pc == pc);
                    assert(armed(self.table@, pc) && tracks(self.table@, pc)) by {
                        let t = self.table@.len() - 1;
                        assert(self.table@[t].pc == pc && self.table@[t].enabled);
                    }
                    assert forall|q: u64| q != pc implies armed(self.table@, q) == armed(
                        orig_table,
                        q,
                    ) by {
                        if armed(orig_table, q) {
                            let w = choose|w: int|
                                0 <= w < orig_table.len() && (#[trigger] orig_table[w]).pc == q
                                    && orig_table[w].enabled;
                            assert(self.table@[w].pc == q && self.table@[w].enabled);
                        }
                        if armed(self.table@, q) {
                            let w = choose|w: int|
                                0 <= w < self.table@.len() && (#[trigger] self.table@[w]).pc == q
                                    && self.table@[w].enabled;
                            assert(orig_table[w].pc == q && orig_table[w].enabled);
                        }
                    }
                }
                Ok(())
            },
        }
    }

    /// Marks the trap at `pc` as removed and returns the saved original byte
    /// so it can be written back before execution passes the address again.
    pub fn disarm(&mut self, pc: u64) -> (r: Result<u8, BreakpointError>)
        requires
            wf_table(old(self).table@),
        ensures
            wf_table(final(self).table@),
            r is Ok <==> armed(old(self).table@, pc),
            r is Err ==> final(self).table@ == old(self).table@,
            r is Ok ==> r == Ok::<u8, BreakpointError>(saved_byte(old(self).table@, pc))
                && final(self).table@ == old(self).table@.update(
                pc_index(old(self).table@, pc),
                (Breakpoint { pc, data: saved_byte(old(self).table@, pc), enabled: false }),
            ) && !armed(final(self).table@, pc),
            forall|q: u64| q != pc ==> armed(final(self).table@, q) == armed(old(self).table@, q),
    {
        let ghost orig_table = self.table@;
        match self.find(pc) {
            Some(i) => {
                if self.table[i].enabled {
                    let data = self.table[i].data;
                    self.table.set(i, Breakpoint { pc, data, enabled: false });
                    proof {
                        assert(armed(orig_table, pc)) by {
                            assert(orig_table[i as int].pc == pc && orig_table[i as int].enabled);
                        }
                        assert(!armed(self.table@, pc)) by {
                            if armed(self.table@, pc) {
                                let w = choose|w: int|
                                    0 <= w < self.table@.len() && (#[trigger] self.table@[w]).pc
                                        == pc && self.table@[w].enabled;
                                assert(w == i as int);
                            }
                        }
                        assert forall|q: u64| q != pc implies armed(self.table@, q) == armed(
                            orig_table,
                            q,
                        ) by {
                            if armed(orig_table, q) {
                                let w = choose|w: int|
                                    0 <= w < orig_table.len() && (#[trigger] orig_table[w]).pc == q
                                        && orig_table[w].enabled;
                                assert(self.table@[w].pc == q && self.table@[w].enabled);
                            }
                            if armed(self.table@, q) {
                                let w = choose|w: int|
                                    0 <= w < self.table@.len() && (#[trigger] self.table@[w]).pc
                                        == q && self.table@[w].enabled;
                                assert(orig_table[w].pc == q && orig_table[w].enabled);
                            }
                        }
                    }
                    Ok(data)
                } else {
                    proof {
                        assert(!armed(orig_table, pc)) by {
                            if armed(orig_table, pc) {
                                let w = choose|w: int|
                                    0 <= w < orig_table.len() && (#[trigger] orig_table[w]).pc
                                        == pc && orig_table[w].enabled;
                                assert(w == i as int);
                            }
                        }
                    }
                    Err(BreakpointError::NotArmed)
                }
            },
            None => Err(BreakpointError::NotArmed),
        }
    }

    /// The disarm half of stepping over a hit trap: restores bookkeeping for
    /// the disarm, and re-arms immediately, leaving the table as it was.
    /// Returns the original byte the embedding program must write back before
    /// the single step, after which the trap byte is written again.
    pub fn step_over(&mut self, pc: u64) -> (r: Result<u8, BreakpointError>)
        requires
            wf_table(old(self).table@),
        ensures
            wf_table(final(self).table@),
            r is Ok <==> armed(old(self).table@, pc),
            r is Ok ==> r == Ok::<u8, BreakpointError>(saved_byte(old(self).table@, pc)),
            final(self).table@ =~= old(self).table@,
    {
        let ghost orig_table = self.table@;
        let b = match self.disarm(pc) {
            Ok(b) => b,
            Err(e) => {
                return Err(e);
            },
        };
        let armed_again = self.arm(pc, b);
        proof {
            assert(armed_again is Ok);
            let k = pc_index(orig_table, pc);
            assert(orig_table[k].pc == pc);
            let mid = self.table@;
            assert(tracks(mid, pc)) by {
                assert(mid[k].pc == pc);
            }
            assert(pc_index(mid, pc) == k) by {
                let w = pc_index(mid, pc);
                assert(mid[w].pc == pc);
                assert(orig_table[w].pc == pc);
            }
        }
        match armed_again {
            Ok(_) => {
                proof {
                    assert(self.table@ =~= orig_table);
                }
                Ok(b)
            },
            Err(_) => {
                // unreachable: the entry was just disarmed
                proof {
                    assert(false);
                }
                Err(BreakpointError::NotArmed)
            },
        }
    }

    /// Arms every (address, original byte) pair, as derived from the line
    /// analysis before the run starts.  Fails loudly on a duplicate address
    /// instead of double-patching.
    pub fn arm_all(&mut self, points: &Vec<(u64, u8)>) -> (r: Result<(), BreakpointError>)
        requires
            old(self).table@.len() == 0,
        ensures
            wf_table(final(self).table@),
            r is Ok <==> distinct_points(points@),
            r is Ok ==> final(self).table@.len() == points@.len() && (forall|k: int|
                0 <= k < points@.len() ==> (#[trigger] final(self).table@[k]).pc == points@[k].0
                    && final(self).table@[k].data == points@[k].1
                    && final(self).table@[k].enabled),
    {
        let ghost ps = points@;
        let mut i: usize = 0;
        while i < points.len()
            invariant
                ps == points@,
                i <= ps.len(),
                wf_table(self.table@),
                self.table@.len() == i,
                forall|k: int|
                    0 <= k < i ==> (#[trigger] self.table@[k]).pc == ps[k].0 && self.table@[k].data
                        == ps[k].1 && self.table@[k].enabled,
                forall|k1: int, k2: int|
                    #![trigger ps[k1].0, ps[k2].0]
                    0 <= k1 < k2 < i ==> ps[k1].0 != ps[k2].0,
            decreases points.len() - i,
        {
            let (pc, byte) = points[i];
            let ghost pre = self.table@;
            match self.arm(pc, byte) {
                Ok(_) => {
                    proof {
                        assert(!tracks(pre, pc)) by {
                            if tracks(pre, pc) {
                                let w = choose|w: int|
                                    0 <= w < pre.len() && (#[trigger] pre[w]).pc == pc;
                                assert(0 <= w < i as int);
                                assert(pre[w].enabled);
                                assert(pre[w].pc == pc && pre[w].enabled);
                                assert(armed(pre, pc));
                                assert(false);
                            }
                        }
                        assert(self.table@ == pre.push(
                            (Breakpoint { pc, data: byte, enabled: true }),
                        ));
                        assert forall|k1: int, k2: int|
                            #![trigger ps[k1].0, ps[k2].0]
                            0 <= k1 < k2 < i + 1 implies ps[k1].0 != ps[k2].0 by {
                            if k2 == i as int {
                                assert(self.table@[k1].pc == ps[k1].0);
                                if ps[k1].0 == pc {
                                    assert(tracks(pre, pc)) by {
                                        assert(pre[k1].pc == pc);
                                    }
                                }
                            }
                        }
                    }
                },
                Err(e) => {
                    proof {
                        // the arm failed, so pc is already armed: a duplicate
                        let w = choose|w: int|
                            0 <= w < pre.len() && (#[trigger] pre[w]).pc == pc && pre[w].enabled;
                        assert(ps[w].0 == ps[i as int].0);
                        assert(!distinct_points(ps));
                    }
                    return Err(e);
                },
            }
            i += 1;
        }
        Ok(())
    }
}

} // verus!
