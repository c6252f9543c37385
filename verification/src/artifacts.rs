//! Classification of profile artifacts in the working directory.
//!
//! The instrumentation-log engine cannot assume a fixed output filename:
//! profile files are tagged with the writing process's id, and leftovers of
//! earlier runs may sit beside them.  Collection therefore diffs the
//! post-run directory listing against the pre-launch snapshot, filtered to
//! the profile extension.

use vstd::prelude::*;

verus! {

/// The name ends in the profile-artifact extension.
pub open spec fn is_profraw(name: Seq<char>) -> bool {
    name.len() >= 8 && name.subrange(name.len() - 8, name.len() as int) == ".profraw"@
}

/// The views of a list of names.
pub open spec fn views_of(v: Seq<String>) -> Seq<Seq<char>> {
    v.map_values(|s: String| s@)
}

/// Some name in `v` reads `x`.
pub open spec fn contains_view(v: Seq<String>, x: Seq<char>) -> bool {
    exists|i: int| 0 <= i < v.len() && (#[trigger] v[i])@ == x
}

/// `contains_view` is membership among the views.
pub proof fn lemma_contains_view(v: Seq<String>, x: Seq<char>)
    ensures
        contains_view(v, x) == views_of(v).contains(x),
{
    if contains_view(v, x) {
        let i = choose|i: int| 0 <= i < v.len() && (#[trigger] v[i])@ == x;
        assert(views_of(v)[i] == x);
    }
    if views_of(v).contains(x) {
        let i = choose|i: int| 0 <= i < views_of(v).len() && views_of(v)[i] == x;
        assert(v[i]@ == x);
    }
}

/// The profile artifacts among the first `n` names, in listing order.
pub open spec fn profraw_views(l: Seq<Seq<char>>, n: int) -> Seq<Seq<char>>
    decreases n,
{
    if n <= 0 {
        Seq::empty()
    } else {
        let rest = profraw_views(l, n - 1);
        if is_profraw(l[n - 1]) {
            rest.push(l[n - 1])
        } else {
            rest
        }
    }
}

/// The profile artifacts among the first `n` names that are not in
/// `existing`, in listing order: the artifacts this run produced.
pub open spec fn new_artifact_views(l: Seq<Seq<char>>, existing: Seq<Seq<char>>, n: int) -> Seq<
    Seq<char>,
>
    decreases n,
{
    if n <= 0 {
        Seq::empty()
    } else {
        let rest = new_artifact_views(l, existing, n - 1);
        if is_profraw(l[n - 1]) && !existing.contains(l[n - 1]) {
            rest.push(l[n - 1])
        } else {
            rest
        }
    }
}

/// Whether the file name carries the profile-artifact extension.
pub fn has_profraw_ext(name: &String) -> (r: bool)
    ensures
        r == is_profraw(name@),
{
    proof {
        reveal_strlit(".profraw");
    }
    let n = name.as_str().unicode_len();
    if n < 8 {
        return false;
    }
    let mut k: usize = 0;
    while k < 8
        invariant
            n == name@.len(),
            n >= 8,
            k <= 8,
            ".profraw"@.len() == 8,
            forall|t: int| 0 <= t < k ==> name@[n - 8 + t] == ".profraw"@[t],
        decreases 8 - k,
    {
        proof {
            reveal_strlit(".profraw");
        }
        let c1 = name.as_str().get_char(n - 8 + k);
        let c2 = ".profraw".get_char(k);
        if c1 != c2 {
            proof {
                let tail = name@.subrange(name@.len() - 8, name@.len() as int);
                assert(tail[k as int] == name@[n - 8 + k]);
                assert(tail[k as int] != ".profraw"@[k as int]);
                assert(tail != ".profraw"@);
            }
            return false;
        }
        k += 1;
    }
    proof {
        let tail = name@.subrange(name@.len() - 8, name@.len() as int);
        assert forall|t: int| 0 <= t < 8 implies tail[t] == ".profraw"@[t] by {
            assert(name@[n - 8 + t] == ".profraw"@[t]);
        }
        assert(tail =~= ".profraw"@);
    }
    true
}

/// Whether some name in the list reads like `x`.
pub fn contains_string(v: &Vec<String>, x: &String) -> (r: bool)
    ensures
        r == contains_view(v@, x@),
{
    let mut i: usize = 0;
    while i < v.len()
        invariant
            i <= v@.len(),
            forall|k: int| 0 <= k < i ==> (#[trigger] v@[k])@ != x@,
        decreases v.len() - i,
    {
        if v[i] == *x {
            return true;
        }
        i += 1;
    }
    false
}

/// Keeps the names carrying the profile extension, in listing order: the
/// pre-launch snapshot of artifacts to exclude from collection later.
pub fn filter_profraws(listing: &Vec<String>) -> (r: Vec<String>)
    ensures
        views_of(r@) == profraw_views(views_of(listing@), listing@.len() as int),
{
    let mut r: Vec<String> = Vec::new();
    let mut i: usize = 0;
    while i < listing.len()
        invariant
            i <= listing@.len(),
            views_of(r@) == profraw_views(views_of(listing@), i as int),
        decreases listing.len() - i,
    {
        let ghost pre = views_of(r@);
        if has_profraw_ext(&listing[i]) {
            r.push(listing[i].clone());
            proof {
                assert(views_of(listing@)[i as int] == listing@[i as int]@);
                assert(views_of(r@) =~= pre.push(listing@[i as int]@));
            }
        }
        proof {
            assert(views_of(listing@)[i as int] == listing@[i as int]@);
        }
        i += 1;
    }
    r
}

/// The names in `listing` that carry the profile extension and were not in
/// the pre-launch snapshot `existing`: exactly the artifacts written by this
/// run, in listing order.
pub fn new_artifacts(listing: &Vec<String>, existing: &Vec<String>) -> (r: Vec<String>)
    ensures
        views_of(r@) == new_artifact_views(
            views_of(listing@),
            views_of(existing@),
            listing@.len() as int,
        ),
{
    let mut r: Vec<String> = Vec::new();
    let mut i: usize = 0;
    while i < listing.len()
        invariant
            i <= listing@.len(),
            views_of(r@) == new_artifact_views(
                views_of(listing@),
                views_of(existing@),
                i as int,
            ),
        decreases listing.len() - i,
    {
        let ghost pre = views_of(r@);
        let fresh = if has_profraw_ext(&listing[i]) {
            !contains_string(existing, &listing[i])
        } else {
            false
        };
        proof {
            assert(views_of(listing@)[i as int] == listing@[i as int]@);
            lemma_contains_view(existing@, listing@[i as int]@);
        }
        if fresh {
            r.push(listing[i].clone());
            proof {
                assert(views_of(r@) =~= pre.push(listing@[i as int]@));
            }
        }
        i += 1;
    }
    r
}

} // verus!
