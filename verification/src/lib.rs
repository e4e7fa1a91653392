//! Affected-package selection for multi-package workspaces.
//!
//! Given a set of changed files, the set of workspace member packages and a
//! resolved dependency graph, this library computes the minimal set of
//! packages that must be rebuilt: the packages owning the changed files plus
//! every workspace-local package that depends on them, directly or
//! transitively. A configurable set of global trigger globs can force a
//! full-workspace rebuild.

use vstd::prelude::*;

pub mod affected;
pub mod changes;
pub mod config;
pub mod dispatch;
pub mod globs;
pub mod graph;
pub mod paths;

verus! {

/// The view of a list of strings: each string as its character sequence.
pub open spec fn strings_view(v: Seq<String>) -> Seq<Seq<char>> {
    v.map_values(|s: String| s@)
}

/// Appending an element to a sequence adds exactly that element to the
/// elements the sequence contains.
pub proof fn lemma_push_contains<A>(s: Seq<A>, x: A, y: A)
    ensures
        s.push(x).contains(y) <==> (s.contains(y) || y == x),
{
    if s.contains(y) {
        let k = choose|k: int| 0 <= k < s.len() && s[k] == y;
        assert(s.push(x)[k] == y);
    }
    if y == x {
        assert(s.push(x)[s.len() as int] == y);
    }
    if s.push(x).contains(y) {
        let k = choose|k: int| 0 <= k < s.push(x).len() && s.push(x)[k] == y;
        if k < s.len() {
            assert(s[k] == y);
        }
    }
}

/// Whether a list of strings contains a string equal to `x`.
pub fn contains_string(v: &Vec<String>, x: &String) -> (r: bool)
    ensures
        r == strings_view(v@).contains(x@),
{
    let mut i: usize = 0;
    while i < v.len()
        invariant
            i <= v@.len(),
            forall|j: int| 0 <= j < i ==> strings_view(v@)[j] != x@,
        decreases v@.len() - i,
    {
        if v[i] == *x {
            proof {
                assert(strings_view(v@)[i as int] == x@);
            }
            return true;
        }
        i = i + 1;
    }
    proof {
        assert forall|j: int| 0 <= j < strings_view(v@).len() implies strings_view(v@)[j] != x@ by {}
    }
    false
}

/// No two strings of the list have the same text.
pub open spec fn distinct_strings(v: Seq<String>) -> bool {
    forall|a: int, b: int| 0 <= a < b < v.len() ==> v[a]@ != v[b]@
}

/// Adds `x` to `v` unless a string with the same text is already present, so
/// that `v` remains a set of distinct texts.
pub fn add_unique(v: &mut Vec<String>, x: &String)
    requires
        distinct_strings(old(v)@),
    ensures
        distinct_strings(final(v)@),
        forall|q: Seq<char>| #[trigger]
            strings_view(final(v)@).contains(q) <==> (strings_view(old(v)@).contains(q) || q
                == x@),
{
    if !contains_string(v, x) {
        let c: String = x.clone();
        proof {
            assert(strings_view(v@.push(c)) =~= strings_view(v@).push(c@));
            assert forall|q: Seq<char>| #[trigger]
                strings_view(v@.push(c)).contains(q) <==> (strings_view(v@).contains(q) || q
                    == x@) by {
                lemma_push_contains(strings_view(v@), c@, q);
            }
            assert forall|a: int| 0 <= a < v@.len() implies v@[a]@ != x@ by {
                if v@[a]@ == x@ {
                    assert(strings_view(v@)[a] == x@);
                    assert(strings_view(v@).contains(x@));
                }
            }
        }
        v.push(c);
    } else {
        proof {
            assert forall|q: Seq<char>| #[trigger]
                strings_view(v@).contains(q) <==> (strings_view(v@).contains(q) || q == x@) by {}
        }
    }
}

/// Adds every string of `src` to `dst` that is not already present, so that
/// `dst` remains a set of distinct texts and afterwards holds the union.
pub fn add_all_unique(dst: &mut Vec<String>, src: &Vec<String>)
    requires
        distinct_strings(old(dst)@),
    ensures
        distinct_strings(final(dst)@),
        forall|nm: Seq<char>| #[trigger]
            strings_view(final(dst)@).contains(nm) <==> (strings_view(old(dst)@).contains(nm)
                || strings_view(src@).contains(nm)),
{
    let mut d: usize = 0;
    while d < src.len()
        invariant
            d <= src@.len(),
            distinct_strings(dst@),
            forall|nm: Seq<char>| #[trigger]
                strings_view(dst@).contains(nm) <==> (strings_view(old(dst)@).contains(nm)
                    || exists|e: int| 0 <= e < d && src@[e]@ == nm),
        decreases src@.len() - d,
    {
        let ghost prev = dst@;
        add_unique(dst, &src[d]);
        proof {
            assert forall|nm: Seq<char>| #[trigger]
                strings_view(dst@).contains(nm) <==> (strings_view(old(dst)@).contains(nm)
                    || exists|e: int| 0 <= e < d + 1 && src@[e]@ == nm) by {
                if strings_view(dst@).contains(nm) {
                    if strings_view(prev).contains(nm) {
                        if !strings_view(old(dst)@).contains(nm) {
                            let e = choose|e: int| 0 <= e < d && src@[e]@ == nm;
                            assert(0 <= e < d + 1 && src@[e]@ == nm);
                        }
                    } else {
                        assert(nm == src@[d as int]@);
                    }
                }
                if exists|e: int| 0 <= e < d + 1 && src@[e]@ == nm {
                    let e = choose|e: int| 0 <= e < d + 1 && src@[e]@ == nm;
                    if e < d {
                        assert(strings_view(prev).contains(nm));
                    } else {
                        assert(nm == src@[d as int]@);
                    }
                }
            }
        }
        d = d + 1;
    }
    proof {
        assert forall|nm: Seq<char>| (exists|e: int| 0 <= e < src@.len() && src@[e]@ == nm)
            <==> #[trigger] strings_view(src@).contains(nm) by {
            if exists|e: int| 0 <= e < src@.len() && src@[e]@ == nm {
                let e = choose|e: int| 0 <= e < src@.len() && src@[e]@ == nm;
                assert(strings_view(src@)[e] == nm);
            }
            if strings_view(src@).contains(nm) {
                let e = choose|e: int|
                    0 <= e < strings_view(src@).len() && strings_view(src@)[e] == nm;
                assert(src@[e]@ == nm);
            }
        }
    }
}

/// Whether a list of indices contains `x`.
pub fn contains_usize(v: &Vec<usize>, x: usize) -> (r: bool)
    ensures
        r == v@.contains(x),
{
    let mut i: usize = 0;
    while i < v.len()
        invariant
            i <= v@.len(),
            forall|j: int| 0 <= j < i ==> v@[j] != x,
        decreases v@.len() - i,
    {
        if v[i] == x {
            return true;
        }
        i = i + 1;
    }
    false
}

/// The failures a selection run can surface. Each variant carries enough
/// context (a revision, a path, a package name, a pattern) to diagnose the
/// failure without re-running.
#[derive(Debug, Clone)]
pub enum SelectError {
    /// A revision reference could not be resolved; holds the reference text.
    RevisionNotFound(String),
    /// No version-control root is discoverable from the working directory.
    RepositoryNotFound,
    /// No resolvable lock state exists from the working directory upward.
    LockFileMissing,
    /// A queried package has no node in the dependency graph; holds the name.
    PackageNotInGraph(String),
    /// Both configuration sources are present and valid at the same time.
    ConfigurationConflict,
    /// A global trigger pattern is not valid glob syntax; holds the pattern.
    BadGlobPattern(String),
    /// The dispatched external build process failed.
    ExternalCommandFailure,
}

} // verus!
