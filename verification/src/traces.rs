//! The per-line hit aggregate of a collection run.
//!
//! A [`TraceMap`] holds one entry per coverable source line, pre-populated
//! with zero hits from the static line analysis before any execution begins.
//! Hit counts only grow during a run; two maps built from the same analysis
//! can be merged by summing counts and uniting addresses.

use vstd::pervasive::VecAdditionalExecFns;
use vstd::prelude::*;

verus! {

/// Static metadata for one source line.
pub struct LineMeta {
    /// Line number within the file.
    pub line: u64,
    /// Whether this line can be covered at all.
    pub coverable: bool,
    /// Binary addresses pre-identified as belonging to this line.
    pub addresses: Vec<u64>,
}

/// Static line analysis for one source file: the external input that seeds
/// the trace map.
pub struct LineAnalysis {
    /// Path of the source file.
    pub path: String,
    /// Per-line metadata.
    pub lines: Vec<LineMeta>,
}

/// One aggregated entry: a source location, its hit count, and the
/// instrumented addresses backing it.
pub struct Trace {
    /// Path of the source file.
    pub file: String,
    /// Line number within the file.
    pub line: u64,
    /// How often the line was observed executing.
    pub hits: u64,
    /// Instrumented addresses backing this line.
    pub addresses: Vec<u64>,
}

/// Mutable aggregate of per-source-line hit state.
pub struct TraceMap {
    /// The entries, one per coverable source line.
    pub traces: Vec<Trace>,
}

/// The line analysis is well formed: file paths are distinct, line numbers
/// are distinct within a file, and an instrumented address belongs to exactly
/// one source line.
pub open spec fn wf_analysis(a: Seq<LineAnalysis>) -> bool {
    &&& (forall|i: int, j: int|
        #![trigger a[i].path, a[j].path]
        0 <= i < j < a.len() ==> a[i].path@ != a[j].path@)
    &&& (forall|i: int, j: int, k: int|
        #![trigger a[i].lines@[j], a[i].lines@[k]]
        0 <= i < a.len() && 0 <= j < k < a[i].lines@.len() ==> a[i].lines@[j].line
            != a[i].lines@[k].line)
    &&& (forall|i1: int, j1: int, i2: int, j2: int, x: u64|
        #![trigger a[i1].lines@[j1].addresses@.contains(x), a[i2].lines@[j2].addresses@.contains(x)]
        0 <= i1 < a.len() && 0 <= j1 < a[i1].lines@.len() && 0 <= i2 < a.len() && 0 <= j2
            < a[i2].lines@.len() && !(i1 == i2 && j1 == j2) && a[i1].lines@[j1].addresses@.contains(
            x,
        ) ==> !a[i2].lines@[j2].addresses@.contains(x))
}

/// The entries have pairwise distinct (file, line) keys and pairwise
/// disjoint address sets.
pub open spec fn wf_traces(s: Seq<Trace>) -> bool {
    &&& (forall|i: int, j: int|
        #![trigger s[i].line, s[j].line]
        0 <= i < j < s.len() ==> !(s[i].file@ == s[j].file@ && s[i].line == s[j].line))
    &&& (forall|i: int, j: int, x: u64|
        #![trigger s[i].addresses@.contains(x), s[j].addresses@.contains(x)]
        0 <= i < s.len() && 0 <= j < s.len() && i != j && s[i].addresses@.contains(x)
            ==> !s[j].addresses@.contains(x))
}

/// The analysis holds `line` of file `f` as coverable, backed by `addrs`.
pub open spec fn covers(a: Seq<LineAnalysis>, f: Seq<char>, line: u64, addrs: Seq<u64>) -> bool {
    exists|i: int, j: int|
        0 <= i < a.len() && 0 <= j < a[i].lines@.len() && a[i].path@ == f && (
        #[trigger] a[i].lines@[j]).line == line && a[i].lines@[j].coverable
            && a[i].lines@[j].addresses@ == addrs
}

/// The analysis holds `line` of file `f` as coverable.
pub open spec fn coverable_line(a: Seq<LineAnalysis>, f: Seq<char>, line: u64) -> bool {
    exists|i: int, j: int|
        0 <= i < a.len() && 0 <= j < a[i].lines@.len() && a[i].path@ == f && (
        #[trigger] a[i].lines@[j]).line == line && a[i].lines@[j].coverable
}

/// Some entry carries the key (f, line).
pub open spec fn has_key(s: Seq<Trace>, f: Seq<char>, line: u64) -> bool {
    exists|i: int| 0 <= i < s.len() && (#[trigger] s[i]).file@ == f && s[i].line == line
}

/// The index of the entry with key (f, line); meaningful only under
/// `has_key`, and unique under `wf_traces`.
pub open spec fn key_index(s: Seq<Trace>, f: Seq<char>, line: u64) -> int {
    choose|i: int| 0 <= i < s.len() && (#[trigger] s[i]).file@ == f && s[i].line == line
}

/// Some entry's addresses contain `x`.
pub open spec fn has_addr(s: Seq<Trace>, x: u64) -> bool {
    exists|i: int| 0 <= i < s.len() && (#[trigger] s[i]).addresses@.contains(x)
}

/// The index of the entry whose addresses contain `x`; meaningful only under
/// `has_addr`, and unique under `wf_traces`.
pub open spec fn addr_index(s: Seq<Trace>, x: u64) -> int {
    choose|i: int| 0 <= i < s.len() && (#[trigger] s[i]).addresses@.contains(x)
}

/// Both sequences list the same source locations with the same backing
/// addresses, in the same order; only hit counts may differ.
pub open spec fn same_skeleton(a: Seq<Trace>, b: Seq<Trace>) -> bool {
    &&& a.len() == b.len()
    &&& (forall|i: int|
        0 <= i < a.len() ==> (#[trigger] b[i]).file@ == a[i].file@ && b[i].line == a[i].line
            && b[i].addresses@ == a[i].addresses@)
}

/// Hit counts in `b` are at least those in `a`, position for position.
pub open spec fn hits_monotone(a: Seq<Trace>, b: Seq<Trace>) -> bool {
    forall|i: int| 0 <= i < a.len() ==> (#[trigger] a[i]).hits <= b[i].hits
}

/// `x` occurs among the first `n` elements of `s`.
pub open spec fn in_prefix(s: Seq<u64>, n: int, x: u64) -> bool {
    exists|w: int| 0 <= w < n && s[w] == x
}

/// The entry `t` stems from a coverable line of `a` strictly before the
/// lexicographic position (fi_end, lj_end), with zero hits.
spec fn from_prefix(a: Seq<LineAnalysis>, t: Trace, fi_end: int, lj_end: int) -> bool {
    exists|fi: int, lj: int|
        0 <= fi < a.len() && 0 <= lj < a[fi].lines@.len() && (fi < fi_end || (fi == fi_end && lj
            < lj_end)) && t.file@ == a[fi].path@ && t.line == (#[trigger] a[fi].lines@[lj]).line
            && a[fi].lines@[lj].coverable && t.addresses@ == a[fi].lines@[lj].addresses@ && t.hits
            == 0
}

/// Copies a list of addresses.
fn copy_addrs(v: &Vec<u64>) -> (r: Vec<u64>)
    ensures
        r@ == v@,
{
    let mut r: Vec<u64> = Vec::new();
    let mut i: usize = 0;
    while i < v.len()
        invariant
            i <= v.len(),
            r@ == v@.subrange(0, i as int),
        decreases v.len() - i,
    {
        r.push(v[i]);
        proof {
            assert(r@ =~= v@.subrange(0, i + 1 as int));
        }
        i += 1;
    }
    proof {
        assert(r@ =~= v@);
    }
    r
}

/// Whether the list contains the address.
fn addrs_contain(v: &Vec<u64>, x: u64) -> (r: bool)
    ensures
        r == v@.contains(x),
{
    let mut i: usize = 0;
    while i < v.len()
        invariant
            i <= v.len(),
            forall|k: int| 0 <= k < i ==> v@[k] != x,
        decreases v.len() - i,
    {
        if v[i] == x {
            return true;
        }
        i += 1;
    }
    false
}

/// Builds the trace map skeleton from the line analysis: one zero-hit entry
/// per coverable line, carrying the addresses expected to back it, before
/// any process launch.
pub fn generate_tracemap(analysis: &Vec<LineAnalysis>) -> (r: TraceMap)
    requires
        wf_analysis(analysis@),
    ensures
        wf_traces(r.traces@),
        forall|t: int|
            0 <= t < r.traces@.len() ==> (#[trigger] r.traces@[t]).hits == 0 && covers(
                analysis@,
                r.traces@[t].file@,
                r.traces@[t].line,
                r.traces@[t].addresses@,
            ),
        forall|f: Seq<char>, l: u64| #[trigger]
            coverable_line(analysis@, f, l) ==> has_key(r.traces@, f, l),
{
    let ghost a = analysis@;
    let mut traces: Vec<Trace> = Vec::new();
    let mut i: usize = 0;
    while i < analysis.len()
        invariant
            wf_analysis(a),
            a == analysis@,
            i <= analysis.len(),
            wf_traces(traces@),
            forall|t: int| 0 <= t < traces@.len() ==> from_prefix(a, #[trigger] traces@[t], i as int, 0),
            forall|fi: int, lj: int|
                0 <= fi < i && 0 <= lj < a[fi].lines@.len() && (#[trigger] a[fi].lines@[lj]).coverable
                    ==> has_key(traces@, a[fi].path@, a[fi].lines@[lj].line),
        decreases analysis.len() - i,
    {
        let file = &analysis[i];
        let mut j: usize = 0;
        while j < file.lines.len()
            invariant
                wf_analysis(a),
                a == analysis@,
                i < a.len(),
                *file == a[i as int],
                j <= file.lines.len(),
                wf_traces(traces@),
                forall|t: int|
                    0 <= t < traces@.len() ==> from_prefix(a, #[trigger] traces@[t], i as int, j as int),
                forall|fi: int, lj: int|
                    0 <= fi < a.len() && 0 <= lj < a[fi].lines@.len() && (fi < i || (fi == i && lj < j))
                        && (#[trigger] a[fi].lines@[lj]).coverable ==> has_key(
                        traces@,
                        a[fi].path@,
                        a[fi].lines@[lj].line,
                    ),
            decreases file.lines.len() - j,
        {
            let lm = &file.lines[j];
            let ghost old_traces = traces@;
            if lm.coverable {
                let entry = Trace {
                    file: file.path.clone(),
                    line: lm.line,
                    hits: 0,
                    addresses: copy_addrs(&lm.addresses),
                };
                proof {
                    // the new entry's key and addresses are fresh: every
                    // earlier entry stems from a strictly earlier line
                    assert forall|t: int| 0 <= t < traces@.len() implies !(traces@[t].file@
                        == entry.file@ && traces@[t].line == entry.line) by {
                        let (fi, lj) = choose|fi: int, lj: int|
                            0 <= fi < a.len() && 0 <= lj < a[fi].lines@.len() && (fi < i as int || (
                            fi == i as int && lj < j as int)) && traces@[t].file@ == a[fi].path@
                                && traces@[t].line == (#[trigger] a[fi].lines@[lj]).line
                                && a[fi].lines@[lj].coverable && traces@[t].addresses@
                                == a[fi].lines@[lj].addresses@ && traces@[t].hits == 0;
                        if fi < i as int {
                            assert(a[fi].path@ != a[i as int].path@);
                        } else {
                            assert(a[fi].lines@[lj].line != a[i as int].lines@[j as int].line);
                        }
                    }
                    assert forall|t: int, x: u64|
                        0 <= t < traces@.len() && traces@[t].addresses@.contains(x) implies !entry.addresses@.contains(
                        x,
                    ) by {
                        let (fi, lj) = choose|fi: int, lj: int|
                            0 <= fi < a.len() && 0 <= lj < a[fi].lines@.len() && (fi < i as int || (
                            fi == i as int && lj < j as int)) && traces@[t].file@ == a[fi].path@
                                && traces@[t].line == (#[trigger] a[fi].lines@[lj]).line
                                && a[fi].lines@[lj].coverable && traces@[t].addresses@
                                == a[fi].lines@[lj].addresses@ && traces@[t].hits == 0;
                        assert(a[fi].lines@[lj].addresses@.contains(x));
                    }
                }
                traces.push(entry);
            }
            proof {
                assert forall|t: int| 0 <= t < traces@.len() implies from_prefix(
                    a,
                    #[trigger] traces@[t],
                    i as int,
                    j + 1 as int,
                ) by {
                    if lm.coverable && t == traces@.len() - 1 {
                        assert(traces@[t].file@ == a[i as int].path@ && traces@[t].line == a[i as int].lines@[j as int].line
                            && a[i as int].lines@[j as int].coverable && traces@[t].addresses@
                            == a[i as int].lines@[j as int].addresses@ && traces@[t].hits == 0);
                    }
                }
                assert forall|fi: int, lj: int|
                    0 <= fi < a.len() && 0 <= lj < a[fi].lines@.len() && (fi < i as int || (fi
                        == i as int && lj < j + 1)) && (
                    #[trigger] a[fi].lines@[lj]).coverable implies has_key(
                    traces@,
                    a[fi].path@,
                    a[fi].lines@[lj].line,
                ) by {
                    if fi == i as int && lj == j as int {
                        // the entry just pushed carries this key
                        let t = traces@.len() - 1;
                        assert(traces@[t].file@ == a[fi].path@ && traces@[t].line
                            == a[fi].lines@[lj].line);
                    } else {
                        // a key present before the push is still present
                        let w = choose|w: int|
                            0 <= w < old_traces.len() && (#[trigger] old_traces[w]).file@
                                == a[fi].path@ && old_traces[w].line == a[fi].lines@[lj].line;
                        assert(traces@[w] == old_traces[w]);
                    }
                }
            }
            j += 1;
        }
        proof {
            assert forall|t: int| 0 <= t < traces@.len() implies from_prefix(
                a,
                #[trigger] traces@[t],
                i + 1 as int,
                0,
            ) by {
                assert(from_prefix(a, traces@[t], i as int, a[i as int].lines@.len() as int));
            }
        }
        i += 1;
    }
    proof {
        assert forall|t: int| 0 <= t < traces@.len() implies traces@[t].hits == 0 && covers(
            a,
            (#[trigger] traces@[t]).file@,
            traces@[t].line,
            traces@[t].addresses@,
        ) by {
            assert(from_prefix(a, traces@[t], a.len() as int, 0));
        }
        assert forall|f: Seq<char>, l: u64| #[trigger]
            coverable_line(a, f, l) implies has_key(traces@, f, l) by {
            let (fi, lj) = choose|fi: int, lj: int|
                0 <= fi < a.len() && 0 <= lj < a[fi].lines@.len() && a[fi].path@ == f && (
                #[trigger] a[fi].lines@[lj]).line == l && a[fi].lines@[lj].coverable;
            assert(has_key(traces@, a[fi].path@, a[fi].lines@[lj].line));
        }
    }
    TraceMap { traces }
}

impl TraceMap {
    /// Records one execution of the line backed by `addr`, if any entry
    /// carries that address; counts saturate rather than wrap.  Returns
    /// whether a matching line was found.
    pub fn increment_hit(&mut self, addr: u64) -> (found: bool)
        requires
            wf_traces(old(self).traces@),
        ensures
            found == has_addr(old(self).traces@, addr),
            wf_traces(final(self).traces@),
            same_skeleton(old(self).traces@, final(self).traces@),
            hits_monotone(old(self).traces@, final(self).traces@),
            !found ==> final(self).traces@ == old(self).traces@,
            found ==> {
                let k = addr_index(old(self).traces@, addr);
                &&& final(self).traces@[k].hits == old(self).traces@[k].hits.saturating_add(1)
                &&& forall|i: int|
                    0 <= i < old(self).traces@.len() && i != k ==> final(self).traces@[i] == old(
                        self,
                    ).traces@[i]
            },
    {
        let ghost orig = self.traces@;
        let mut i: usize = 0;
        while i < self.traces.len()
            invariant
                wf_traces(orig),
                orig == old(self).traces@,
                self.traces@ == orig,
                i <= orig.len(),
                forall|k: int| 0 <= k < i ==> !(#[trigger] orig[k]).addresses@.contains(addr),
            decreases self.traces.len() - i,
        {
            if addrs_contain(&self.traces[i].addresses, addr) {
                proof {
                    assert(has_addr(orig, addr));
                    let w = addr_index(orig, addr);
                    assert(orig[w].addresses@.contains(addr));
                    // disjointness makes the witness unique
                    assert(w == i as int);
                }
                let old_entry = &self.traces[i];
                let entry = Trace {
                    file: old_entry.file.clone(),
                    line: old_entry.line,
                    hits: old_entry.hits.saturating_add(1),
                    addresses: copy_addrs(&old_entry.addresses),
                };
                self.traces.set(i, entry);
                proof {
                    assert(same_skeleton(orig, self.traces@));
                    assert forall|i1: int, j1: int, x: u64|
                        0 <= i1 < self.traces@.len() && 0 <= j1 < self.traces@.len() && i1 != j1
                            && #[trigger] self.traces@[i1].addresses@.contains(x) implies !(
                        #[trigger] self.traces@[j1].addresses@.contains(x)) by {
                        assert(orig[i1].addresses@.contains(x));
                    }
                }
                return true;
            }
            i += 1;
        }
        proof {
            assert(!has_addr(orig, addr));
        }
        false
    }

    /// Adds `hits` to the entry keyed (file, line), saturating; leaves the
    /// map unchanged when no entry carries that key.  Returns whether the
    /// key was found.
    pub fn record_hits(&mut self, file: &String, line: u64, hits: u64) -> (found: bool)
        requires
            wf_traces(old(self).traces@),
        ensures
            found == has_key(old(self).traces@, file@, line),
            wf_traces(final(self).traces@),
            same_skeleton(old(self).traces@, final(self).traces@),
            hits_monotone(old(self).traces@, final(self).traces@),
            !found ==> final(self).traces@ == old(self).traces@,
            found ==> {
                let k = key_index(old(self).traces@, file@, line);
                &&& final(self).traces@[k].hits == old(self).traces@[k].hits.saturating_add(hits)
                &&& forall|i: int|
                    0 <= i < old(self).traces@.len() && i != k ==> final(self).traces@[i] == old(
                        self,
                    ).traces@[i]
            },
    {
        let ghost orig = self.traces@;
        let mut i: usize = 0;
        while i < self.traces.len()
            invariant
                wf_traces(orig),
                orig == old(self).traces@,
                self.traces@ == orig,
                i <= orig.len(),
                forall|k: int|
                    0 <= k < i ==> !((#[trigger] orig[k]).file@ == file@ && orig[k].line == line),
            decreases self.traces.len() - i,
        {
            if self.traces[i].line == line && self.traces[i].file == *file {
                proof {
                    assert(has_key(orig, file@, line)) by {
                        assert(orig[i as int].file@ == file@ && orig[i as int].line == line);
                    }
                    let w = key_index(orig, file@, line);
                    assert(orig[w].file@ == file@ && orig[w].line == line);
                    assert(w == i as int);
                }
                let old_entry = &self.traces[i];
                let entry = Trace {
                    file: old_entry.file.clone(),
                    line: old_entry.line,
                    hits: old_entry.hits.saturating_add(hits),
                    addresses: copy_addrs(&old_entry.addresses),
                };
                self.traces.set(i, entry);
                proof {
                    assert(same_skeleton(orig, self.traces@));
                    assert forall|i1: int, j1: int, x: u64|
                        0 <= i1 < self.traces@.len() && 0 <= j1 < self.traces@.len() && i1 != j1
                            && #[trigger] self.traces@[i1].addresses@.contains(x) implies !(
                    #[trigger] self.traces@[j1].addresses@.contains(x)) by {
                        assert(orig[i1].addresses@.contains(x));
                    }
                }
                return true;
            }
            i += 1;
        }
        proof {
            assert(!has_key(orig, file@, line));
        }
        false
    }

    /// Two maps can be merged when they list the same source locations in
    /// the same order and no address of one belongs to a different location
    /// of the other — as holds for any two maps built from one analysis.
    pub open spec fn mergeable(a: Seq<Trace>, b: Seq<Trace>) -> bool {
        &&& a.len() == b.len()
        &&& (forall|i: int|
            0 <= i < a.len() ==> (#[trigger] b[i]).file@ == a[i].file@ && b[i].line == a[i].line)
        &&& (forall|i: int, j: int, x: u64|
            #![trigger a[i].addresses@.contains(x), b[j].addresses@.contains(x)]
            0 <= i < a.len() && 0 <= j < a.len() && i != j && a[i].addresses@.contains(x)
                ==> !b[j].addresses@.contains(x))
    }

    /// Merges another map into this one: hit counts are summed (saturating)
    /// and address sets united, location by location.  A sum, not an
    /// overwrite: a location unhit in one map keeps the other map's count.
    pub fn merge(&mut self, other: &TraceMap)
        requires
            wf_traces(old(self).traces@),
            wf_traces(other.traces@),
            Self::mergeable(old(self).traces@, other.traces@),
        ensures
            wf_traces(final(self).traces@),
            final(self).traces@.len() == old(self).traces@.len(),
            hits_monotone(old(self).traces@, final(self).traces@),
            forall|i: int|
                0 <= i < old(self).traces@.len() ==> {
                    &&& (#[trigger] final(self).traces@[i]).file@ == old(self).traces@[i].file@
                    &&& final(self).traces@[i].line == old(self).traces@[i].line
                    &&& final(self).traces@[i].hits == old(self).traces@[i].hits.saturating_add(
                        other.traces@[i].hits,
                    )
                },
            forall|i: int, x: u64|
                0 <= i < old(self).traces@.len() ==> ((#[trigger] final(self).traces@[i].addresses@.contains(x))
                    <==> (old(self).traces@[i].addresses@.contains(x)
                    || other.traces@[i].addresses@.contains(x))),
    {
        let ghost orig = self.traces@;
        let mut i: usize = 0;
        while i < self.traces.len()
            invariant
                wf_traces(orig),
                wf_traces(other.traces@),
                Self::mergeable(orig, other.traces@),
                i <= orig.len(),
                self.traces@.len() == orig.len(),
                forall|k: int| i <= k < orig.len() ==> #[trigger] self.traces@[k] == orig[k],
                forall|k: int|
                    0 <= k < i ==> {
                        &&& (#[trigger] self.traces@[k]).file@ == orig[k].file@
                        &&& self.traces@[k].line == orig[k].line
                        &&& self.traces@[k].hits == orig[k].hits.saturating_add(
                            other.traces@[k].hits,
                        )
                    },
                forall|k: int, x: u64|
                    0 <= k < i ==> ((#[trigger] self.traces@[k].addresses@.contains(x)) <==> (
                    orig[k].addresses@.contains(x) || other.traces@[k].addresses@.contains(x))),
            decreases self.traces.len() - i,
        {
            let h = self.traces[i].hits.saturating_add(other.traces[i].hits);
            let mut addrs = copy_addrs(&self.traces[i].addresses);
            let ghost base = addrs@;
            let src = &other.traces[i].addresses;
            let mut j: usize = 0;
            while j < src.len()
                invariant
                    j <= src.len(),
                    forall|x: u64| #[trigger]
                        addrs@.contains(x) <==> (base.contains(x) || in_prefix(src@, j as int, x)),
                decreases src.len() - j,
            {
                let ghost pre = addrs@;
                let x = src[j];
                if !addrs_contain(&addrs, x) {
                    addrs.push(x);
                    proof {
                        assert forall|y: u64| #[trigger] addrs@.contains(y) implies pre.contains(y)
                            || y == x by {
                            let w = choose|w: int| 0 <= w < addrs@.len() && addrs@[w] == y;
                            if w < pre.len() {
                                assert(pre[w] == y);
                            }
                        }
                        assert(addrs@[addrs@.len() - 1] == x);
                        assert forall|y: u64| pre.contains(y) implies #[trigger] addrs@.contains(y) by {
                            let w = choose|w: int| 0 <= w < pre.len() && pre[w] == y;
                            assert(addrs@[w] == y);
                        }
                    }
                }
                proof {
                    assert(src@[j as int] == x);
                    assert forall|y: u64| #[trigger]
                        addrs@.contains(y) implies (base.contains(y) || in_prefix(
                        src@,
                        j + 1 as int,
                        y,
                    )) by {
                        if y == x {
                            assert(in_prefix(src@, j + 1 as int, y));
                        } else {
                            if in_prefix(src@, j as int, y) {
                                let w = choose|w: int| 0 <= w < j && src@[w] == y;
                                assert(in_prefix(src@, j + 1 as int, y));
                            }
                        }
                    }
                    assert forall|y: u64|
                        base.contains(y) || in_prefix(src@, j + 1 as int, y) implies #[trigger] addrs@.contains(
                        y,
                    ) by {
                        if in_prefix(src@, j + 1 as int, y) && !base.contains(y) {
                            let w = choose|w: int| 0 <= w < j + 1 && src@[w] == y;
                            if w < j {
                                assert(in_prefix(src@, j as int, y));
                            } else {
                                assert(y == x);
                            }
                        }
                    }
                }
                j += 1;
            }
            proof {
                assert forall|y: u64|
                    in_prefix(src@, src@.len() as int, y) == #[trigger] src@.contains(y) by {
                    if in_prefix(src@, src@.len() as int, y) {
                        let w = choose|w: int| 0 <= w < src@.len() && src@[w] == y;
                        assert(src@[w] == y);
                    }
                    if src@.contains(y) {
                        let w = choose|w: int| 0 <= w < src@.len() && src@[w] == y;
                        assert(in_prefix(src@, src@.len() as int, y));
                    }
                }
            }
            let entry = Trace {
                file: self.traces[i].file.clone(),
                line: self.traces[i].line,
                hits: h,
                addresses: addrs,
            };
            self.traces.set(i, entry);
            i += 1;
        }
        proof {
            assert forall|i1: int, j1: int, x: u64|
                0 <= i1 < self.traces@.len() && 0 <= j1 < self.traces@.len() && i1 != j1
                    && #[trigger] self.traces@[i1].addresses@.contains(x) implies !(
            #[trigger] self.traces@[j1].addresses@.contains(x)) by {
                assert(orig[i1].addresses@.contains(x) || other.traces@[i1].addresses@.contains(x));
                assert(!orig[j1].addresses@.contains(x) && !other.traces@[j1].addresses@.contains(
                    x,
                ));
            }
        }
    }
}

} // verus!
