//! The affected-set computer.
//!
//! Changed files are resolved to the workspace members that own them; those
//! members are the seeds. The affected set is every seed's name together
//! with the names of the seed's reported reverse dependents in the
//! dependency graph — unless some changed path matches a global trigger
//! pattern, in which case every workspace member is affected and the graph
//! is not consulted at all. No changed files, or only files no member owns,
//! yield the empty set, which tells the dispatcher to skip the build.

use vstd::prelude::*;

verus! {

use crate::SelectError;
use crate::add_all_unique;
use crate::add_unique;
use crate::distinct_strings;
use crate::globs::any_glob_match;
use crate::globs::globset_is_match;
use crate::globs::globset_pats;
use crate::graph::DepGraph;
use crate::graph::LockPackage;
use crate::graph::dependents_names_ok;
use crate::graph::first_node;
use crate::graph::get_dependents_of_pkg;
use crate::graph::has_node;
use crate::graph::is_reported_dependent;
use crate::lemma_push_contains;
use crate::paths::abs_norm;
use crate::paths::is_owned_by;
use crate::paths::make_absolute;
use crate::paths::owns;
use crate::strings_view;

/// One workspace member package.
pub struct Member {
    /// The member's build target name.
    pub name: String,
    /// The member's resolved version, part of its identity in the graph.
    pub version: String,
    /// The member's root directory as absolute path segments; the root owns
    /// every file at or beneath it.
    pub root: Vec<String>,
}

/// Member `i` owns the changed path `changed[k]` once that path is made
/// absolute against `cwd` and lexically normalized.
pub open spec fn member_owns_change(
    members: Seq<Member>,
    cwd: Seq<Seq<char>>,
    changed: Seq<String>,
    i: int,
    k: int,
) -> bool {
    owns(strings_view(members[i].root@), abs_norm(cwd, changed[k]@))
}

/// Member `i` is a seed: at least one changed file lies in its root.
pub open spec fn is_seed(
    members: Seq<Member>,
    cwd: Seq<Seq<char>>,
    changed: Seq<String>,
    i: int,
) -> bool {
    &&& 0 <= i < members.len()
    &&& exists|k: int| 0 <= k < changed.len() && member_owns_change(members, cwd, changed, i, k)
}

/// `nm` is the name of some workspace member.
pub open spec fn is_member_name(members: Seq<Member>, nm: Seq<char>) -> bool {
    exists|i: int| 0 <= i < members.len() && members[i].name@ == nm
}

/// Some changed path matches some global trigger pattern.
pub open spec fn any_trigger_fires(pats: Seq<Seq<char>>, changed: Seq<String>) -> bool {
    exists|k: int| 0 <= k < changed.len() && any_glob_match(pats, changed[k]@)
}

/// Every seed member has a node in the dependency graph.
pub open spec fn seeds_in_graph(
    members: Seq<Member>,
    pkgs: Seq<LockPackage>,
    cwd: Seq<Seq<char>>,
    changed: Seq<String>,
) -> bool {
    forall|i: int| #[trigger]
        is_seed(members, cwd, changed, i) ==> has_node(pkgs, members[i].name@, members[i].version@)
}

/// The seed member `i` makes the name `nm` affected: `nm` is the member's
/// own name, or the name of a reported reverse dependent of its graph node.
pub open spec fn seed_affects(
    members: Seq<Member>,
    pkgs: Seq<LockPackage>,
    i: int,
    nm: Seq<char>,
) -> bool {
    ||| members[i].name@ == nm
    ||| exists|s: int, t: int|
        #![trigger is_reported_dependent(pkgs, s, t)]
        first_node(pkgs, members[i].name@, members[i].version@, s) && is_reported_dependent(
            pkgs,
            s,
            t,
        ) && pkgs[t].name@ == nm
}

/// The seed at position `m` of the seed list makes `nm` affected.
pub open spec fn seed_affects_at(
    members: Seq<Member>,
    pkgs: Seq<LockPackage>,
    seeds: Seq<usize>,
    m: int,
    nm: Seq<char>,
) -> bool {
    seed_affects(members, pkgs, seeds[m] as int, nm)
}

/// The seed at position `m` of the seed list has a node in the graph.
pub open spec fn seed_has_node(
    members: Seq<Member>,
    pkgs: Seq<LockPackage>,
    seeds: Seq<usize>,
    m: int,
) -> bool {
    has_node(pkgs, members[seeds[m] as int].name@, members[seeds[m] as int].version@)
}

/// The name `nm` is affected: some seed makes it affected.
pub open spec fn affected_contains(
    members: Seq<Member>,
    pkgs: Seq<LockPackage>,
    cwd: Seq<Seq<char>>,
    changed: Seq<String>,
    nm: Seq<char>,
) -> bool {
    exists|i: int| #[trigger]
        is_seed(members, cwd, changed, i) && seed_affects(members, pkgs, i, nm)
}

/// Idempotence of the selection: two affected sets computed from identical
/// inputs hold exactly the same names.
pub proof fn lemma_affected_idempotent(
    members: Seq<Member>,
    pkgs: Seq<LockPackage>,
    cwd: Seq<Seq<char>>,
    changed: Seq<String>,
    r1: Seq<String>,
    r2: Seq<String>,
)
    requires
        forall|nm: Seq<char>| #[trigger]
            strings_view(r1).contains(nm) <==> affected_contains(members, pkgs, cwd, changed, nm),
        forall|nm: Seq<char>| #[trigger]
            strings_view(r2).contains(nm) <==> affected_contains(members, pkgs, cwd, changed, nm),
    ensures
        forall|nm: Seq<char>|
            #[trigger] strings_view(r1).contains(nm) <==> #[trigger] strings_view(r2).contains(nm),
{
}

/// A global trigger that fires on a change set still fires when a changed
/// file is added to it.
pub proof fn lemma_trigger_monotonic(pats: Seq<Seq<char>>, changed: Seq<String>, added: String)
    requires
        any_trigger_fires(pats, changed),
    ensures
        any_trigger_fires(pats, changed.push(added)),
{
    let k = choose|k: int| 0 <= k < changed.len() && any_glob_match(pats, changed[k]@);
    assert(changed.push(added)[k]@ == changed[k]@);
    assert(any_glob_match(pats, changed.push(added)[k]@));
}

/// Monotonicity of the selection: with a changed file added, every name of
/// the old affected set is still in the new one — provided the added file
/// does not newly fire a global trigger. A newly firing trigger replaces
/// the result with the full member-name set, which need not contain a
/// path-local non-member dependent of a seed, so that case is excluded.
/// `r1` and `r2` are characterized as the selection's results on `changed`
/// and on `changed.push(added)` respectively.
pub proof fn lemma_affected_monotonic(
    members: Seq<Member>,
    pkgs: Seq<LockPackage>,
    pats: Seq<Seq<char>>,
    cwd: Seq<Seq<char>>,
    changed: Seq<String>,
    added: String,
    r1: Seq<String>,
    r2: Seq<String>,
)
    requires
        any_trigger_fires(pats, changed.push(added)) ==> any_trigger_fires(pats, changed),
        any_trigger_fires(pats, changed) ==> (forall|nm: Seq<char>| #[trigger]
            strings_view(r1).contains(nm) <==> is_member_name(members, nm)),
        !any_trigger_fires(pats, changed) ==> (forall|nm: Seq<char>| #[trigger]
            strings_view(r1).contains(nm) <==> affected_contains(members, pkgs, cwd, changed, nm)),
        any_trigger_fires(pats, changed.push(added)) ==> (forall|nm: Seq<char>| #[trigger]
            strings_view(r2).contains(nm) <==> is_member_name(members, nm)),
        !any_trigger_fires(pats, changed.push(added)) ==> (forall|nm: Seq<char>| #[trigger]
            strings_view(r2).contains(nm) <==> affected_contains(
                members,
                pkgs,
                cwd,
                changed.push(added),
                nm,
            )),
    ensures
        forall|nm: Seq<char>| #[trigger]
            strings_view(r1).contains(nm) ==> #[trigger] strings_view(r2).contains(nm),
{
    if any_trigger_fires(pats, changed) {
        lemma_trigger_monotonic(pats, changed, added);
    } else {
        assert(!any_trigger_fires(pats, changed.push(added)));
        assert forall|nm: Seq<char>| #[trigger]
            strings_view(r1).contains(nm) implies strings_view(r2).contains(nm) by {
            let i = choose|i: int| #[trigger]
                is_seed(members, cwd, changed, i) && seed_affects(members, pkgs, i, nm);
            let k = choose|k: int|
                0 <= k < changed.len() && member_owns_change(members, cwd, changed, i, k);
            assert(changed.push(added)[k]@ == changed[k]@);
            assert(member_owns_change(members, cwd, changed.push(added), i, k));
            assert(is_seed(members, cwd, changed.push(added), i));
            assert(affected_contains(members, pkgs, cwd, changed.push(added), nm));
        }
    }
}

/// Maps the changed files to the workspace members that own them: the index
/// of every member owning at least one changed path, each index at most
/// once. A path no member owns contributes nothing, and is no error.
pub fn get_crates_from_files(
    cwd: &Vec<String>,
    members: &Vec<Member>,
    changed: &Vec<String>,
) -> (seeds: Vec<usize>)
    ensures
        forall|t: usize| #[trigger]
            seeds@.contains(t) <==> is_seed(members@, strings_view(cwd@), changed@, t as int),
        forall|a: int, b: int| 0 <= a < b < seeds@.len() ==> seeds@[a] != seeds@[b],
{
    let ghost cwdv = strings_view(cwd@);
    let mut seeds: Vec<usize> = Vec::new();
    let mut i: usize = 0;
    while i < members.len()
        invariant
            i <= members@.len(),
            cwdv == strings_view(cwd@),
            forall|t: usize| #[trigger]
                seeds@.contains(t) <==> (t < i && is_seed(members@, cwdv, changed@, t as int)),
            forall|a: int, b: int| 0 <= a < b < seeds@.len() ==> seeds@[a] != seeds@[b],
        decreases members@.len() - i,
    {
        let mut found = false;
        let mut k: usize = 0;
        while k < changed.len()
            invariant
                k <= changed@.len(),
                i < members@.len(),
                cwdv == strings_view(cwd@),
                found <==> exists|m: int|
                    0 <= m < k && member_owns_change(members@, cwdv, changed@, i as int, m),
            decreases changed@.len() - k,
        {
            if !found {
                let abs = make_absolute(changed[k].as_str(), cwd);
                if is_owned_by(&abs, &members[i].root) {
                    proof {
                        assert(member_owns_change(members@, cwdv, changed@, i as int, k as int));
                    }
                    found = true;
                }
            }
            k = k + 1;
        }
        if found {
            proof {
                assert(!seeds@.contains(i));
                assert forall|t: usize| #[trigger]
                    seeds@.push(i).contains(t) <==> (seeds@.contains(t) || t == i) by {
                    lemma_push_contains(seeds@, i, t);
                }
                assert(is_seed(members@, cwdv, changed@, i as int));
            }
            seeds.push(i);
        } else {
            proof {
                assert(!is_seed(members@, cwdv, changed@, i as int));
            }
        }
        i = i + 1;
    }
    seeds
}

/// The names of every workspace member, each once.
fn member_names(members: &Vec<Member>) -> (names: Vec<String>)
    ensures
        forall|nm: Seq<char>| #[trigger]
            strings_view(names@).contains(nm) <==> is_member_name(members@, nm),
        distinct_strings(names@),
{
    let mut names: Vec<String> = Vec::new();
    let mut i: usize = 0;
    while i < members.len()
        invariant
            i <= members@.len(),
            distinct_strings(names@),
            forall|nm: Seq<char>| #[trigger]
                strings_view(names@).contains(nm) <==> exists|t: int|
                    0 <= t < i && members@[t].name@ == nm,
        decreases members@.len() - i,
    {
        let ghost before = names@;
        add_unique(&mut names, &members[i].name);
        proof {
            assert forall|nm: Seq<char>| #[trigger]
                strings_view(names@).contains(nm) <==> exists|t: int|
                    0 <= t < i + 1 && members@[t].name@ == nm by {
                if strings_view(names@).contains(nm) {
                    if strings_view(before).contains(nm) {
                        let t = choose|t: int| 0 <= t < i && members@[t].name@ == nm;
                        assert(0 <= t < i + 1 && members@[t].name@ == nm);
                    } else {
                        assert(members@[i as int].name@ == nm);
                    }
                }
                if exists|t: int| 0 <= t < i + 1 && members@[t].name@ == nm {
                    let t = choose|t: int| 0 <= t < i + 1 && members@[t].name@ == nm;
                    if t < i {
                        assert(strings_view(before).contains(nm));
                    }
                }
            }
        }
        i = i + 1;
    }
    names
}

/// Computes the affected set.
///
/// If any changed path matches a global trigger pattern, the result is the
/// name of every workspace member, and the graph is not consulted.
/// Otherwise each member owning a changed file is a seed, and the result
/// holds each seed's name and the names of its reported reverse dependents;
/// changed paths no member owns contribute nothing, so with no owned
/// changes the result is empty. Fails with `PackageNotInGraph` exactly
/// when, absent a trigger, some seed has no node in the graph.
pub fn compute_affected(
    cwd: &Vec<String>,
    members: &Vec<Member>,
    graph: &DepGraph,
    changed: &Vec<String>,
    triggers: &globset::GlobSet,
) -> (r: Result<Vec<String>, SelectError>)
    requires
        graph.wf(),
    ensures
        any_trigger_fires(globset_pats(*triggers), changed@) ==> (r matches Ok(names) && forall|
            nm: Seq<char>,
        | #[trigger]
            strings_view(names@).contains(nm) <==> is_member_name(members@, nm)),
        !any_trigger_fires(globset_pats(*triggers), changed@) ==> (r is Ok <==> seeds_in_graph(
            members@,
            graph.pkgs@,
            strings_view(cwd@),
            changed@,
        )),
        !any_trigger_fires(globset_pats(*triggers), changed@) ==> (r matches Ok(names) ==> forall|
            nm: Seq<char>,
        | #[trigger]
            strings_view(names@).contains(nm) <==> affected_contains(
                members@,
                graph.pkgs@,
                strings_view(cwd@),
                changed@,
                nm,
            )),
        r matches Err(e) ==> (e matches SelectError::PackageNotInGraph(n) && exists|i: int|
            #![trigger is_seed(members@, strings_view(cwd@), changed@, i)]
            is_seed(members@, strings_view(cwd@), changed@, i) && !has_node(
                graph.pkgs@,
                members@[i].name@,
                members@[i].version@,
            ) && members@[i].name@ == n@),
        r matches Ok(names) ==> distinct_strings(names@),
{
    let ghost pats = globset_pats(*triggers);
    let ghost cwdv = strings_view(cwd@);
    let ghost pkgs = graph.pkgs@;
    let m_count: usize = members.len();
    let mut k: usize = 0;
    while k < changed.len()
        invariant
            k <= changed@.len(),
            pats == globset_pats(*triggers),
            forall|m: int| 0 <= m < k ==> !any_glob_match(pats, changed@[m]@),
        decreases changed@.len() - k,
    {
        if globset_is_match(triggers, changed[k].as_str()) {
            proof {
                assert(any_trigger_fires(pats, changed@));
            }
            return Ok(member_names(members));
        }
        k = k + 1;
    }
    proof {
        assert(!any_trigger_fires(pats, changed@));
    }
    let seeds = get_crates_from_files(cwd, members, changed);
    proof {
        assert forall|m: int| 0 <= m < seeds@.len() implies #[trigger] seeds@[m]
            < members@.len() by {
            assert(seeds@.contains(seeds@[m]));
        }
    }
    let mut names: Vec<String> = Vec::new();
    let mut q: usize = 0;
    while q < seeds.len()
        invariant
            graph.wf(),
            pkgs == graph.pkgs@,
            cwdv == strings_view(cwd@),
            pats == globset_pats(*triggers),
            !any_trigger_fires(pats, changed@),
            q <= seeds@.len(),
            forall|t: usize| #[trigger]
                seeds@.contains(t) <==> is_seed(members@, cwdv, changed@, t as int),
            forall|m: int| 0 <= m < seeds@.len() ==> #[trigger] seeds@[m] < members@.len(),
            distinct_strings(names@),
            forall|m: int| 0 <= m < q ==> #[trigger] seed_has_node(members@, pkgs, seeds@, m),
            forall|nm: Seq<char>| #[trigger]
                strings_view(names@).contains(nm) <==> exists|m: int|
                    0 <= m < q && #[trigger] seed_affects_at(members@, pkgs, seeds@, m, nm),
        decreases seeds@.len() - q,
    {
        let i: usize = seeds[q];
        proof {
            assert(seeds@.contains(i));
            assert(is_seed(members@, cwdv, changed@, i as int));
        }
        let ghost before = names@;
        add_unique(&mut names, &members[i].name);
        let ghost mid = names@;
        let deps = match get_dependents_of_pkg(graph, &members[i].name, &members[i].version) {
            Ok(d) => d,
            Err(e) => {
                proof {
                    assert(!has_node(pkgs, members@[i as int].name@, members@[i as int].version@));
                    assert(!seeds_in_graph(members@, pkgs, cwdv, changed@));
                    // the member at seed i witnesses the carried package name
                    assert(is_seed(members@, cwdv, changed@, i as int) && !has_node(
                        pkgs,
                        members@[i as int].name@,
                        members@[i as int].version@,
                    ));
                }
                return Err(e);
            },
        };
        add_all_unique(&mut names, &deps);
        proof {
            let mname = members@[i as int].name@;
            let mver = members@[i as int].version@;
            let s0 = choose|s: int| first_node(pkgs, mname, mver, s);
            assert(dependents_names_ok(pkgs, s0, deps@));
            assert forall|nm: Seq<char>| #[trigger]
                strings_view(names@).contains(nm) <==> exists|m: int|
                    0 <= m < q + 1 && #[trigger] seed_affects_at(members@, pkgs, seeds@, m, nm) by {
                if strings_view(names@).contains(nm) {
                    if strings_view(before).contains(nm) {
                        let m = choose|m: int|
                            0 <= m < q && #[trigger] seed_affects_at(members@, pkgs, seeds@, m, nm);
                        assert(0 <= m < q + 1 && seed_affects_at(members@, pkgs, seeds@, m, nm));
                    } else if strings_view(mid).contains(nm) {
                        assert(nm == mname);
                        assert(seed_affects(members@, pkgs, i as int, nm));
                        assert(seeds@[q as int] == i);
                        assert(seed_affects_at(members@, pkgs, seeds@, q as int, nm));
                    } else {
                        assert(strings_view(deps@).contains(nm));
                        let t = choose|t: int|
                            is_reported_dependent(pkgs, s0, t) && pkgs[t].name@ == nm;
                        assert(first_node(pkgs, mname, mver, s0) && is_reported_dependent(
                            pkgs,
                            s0,
                            t,
                        ) && pkgs[t].name@ == nm);
                        assert(seed_affects(members@, pkgs, i as int, nm));
                        assert(seeds@[q as int] == i);
                        assert(seed_affects_at(members@, pkgs, seeds@, q as int, nm));
                    }
                }
                if exists|m: int|
                    0 <= m < q + 1 && #[trigger] seed_affects_at(members@, pkgs, seeds@, m, nm) {
                    let m = choose|m: int|
                        0 <= m < q + 1 && #[trigger] seed_affects_at(members@, pkgs, seeds@, m, nm);
                    if m < q {
                        assert(strings_view(before).contains(nm));
                        assert(strings_view(mid).contains(nm));
                        assert(strings_view(names@).contains(nm));
                    } else {
                        assert(seeds@[m] == i);
                        if mname == nm {
                            assert(strings_view(mid).contains(nm));
                            assert(strings_view(names@).contains(nm));
                        } else {
                            let (s, t) = choose|s: int, t: int|
                                first_node(pkgs, mname, mver, s) && #[trigger]
                                is_reported_dependent(pkgs, s, t) && pkgs[t].name@ == nm;
                            if s < s0 {
                                assert(false);
                            }
                            if s > s0 {
                                assert(false);
                            }
                            assert(s == s0);
                            assert(strings_view(deps@).contains(nm));
                            assert(strings_view(names@).contains(nm));
                        }
                    }
                }
            }
        }
        q = q + 1;
    }
    proof {
        assert forall|i: int| #[trigger]
            is_seed(members@, cwdv, changed@, i) implies has_node(
            pkgs,
            members@[i].name@,
            members@[i].version@,
        ) by {
            assert(0 <= i < m_count);
            let t = i as usize;
            assert(t as int == i);
            assert(seeds@.contains(t));
            let m = choose|m: int| 0 <= m < seeds@.len() && seeds@[m] == t;
            assert(seed_has_node(members@, pkgs, seeds@, m));
        }
        assert(seeds_in_graph(members@, pkgs, cwdv, changed@));
        assert forall|nm: Seq<char>| #[trigger]
            strings_view(names@).contains(nm) <==> affected_contains(
            members@,
            pkgs,
            cwdv,
            changed@,
            nm,
        ) by {
            if strings_view(names@).contains(nm) {
                let m = choose|m: int|
                    0 <= m < seeds@.len() && #[trigger] seed_affects_at(members@, pkgs, seeds@, m, nm);
                assert(seeds@.contains(seeds@[m]));
                assert(is_seed(members@, cwdv, changed@, seeds@[m] as int));
                assert(seed_affects(members@, pkgs, seeds@[m] as int, nm));
            }
            if affected_contains(members@, pkgs, cwdv, changed@, nm) {
                let i = choose|i: int| #[trigger]
                    is_seed(members@, cwdv, changed@, i) && seed_affects(members@, pkgs, i, nm);
                assert(0 <= i < m_count);
                let t = i as usize;
                assert(t as int == i);
                assert(seeds@.contains(t));
                let m = choose|m: int| 0 <= m < seeds@.len() && seeds@[m] == t;
                assert(seed_affects_at(members@, pkgs, seeds@, m, nm));
            }
        }
    }
    Ok(names)
}

} // verus!
