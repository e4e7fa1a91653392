//! The package dependency graph, built once from resolved lock data.
//!
//! Nodes are the packages of the lock state, one per (name, version) pair;
//! an edge i -> j means package i depends on package j. An incoming-edge
//! index is computed at construction so that reverse-dependent queries walk
//! incoming edges directly. The reverse-dependent closure of a package is
//! computed with a visited set, so cycles among external dependencies cannot
//! cause non-termination.

use vstd::prelude::*;

verus! {

use crate::SelectError;
use crate::contains_string;
use crate::contains_usize;
use crate::lemma_push_contains;
use crate::strings_view;

/// One resolved package from the lock state.
pub struct LockPackage {
    /// The package name, used for reporting and command dispatch.
    pub name: String,
    /// The exact resolved version, part of the package identity.
    pub version: String,
    /// True when the package is a workspace member or a path-local
    /// dependency; false for registry-sourced external packages.
    pub local: bool,
    /// Indices, into the package list, of the packages this one depends on.
    pub deps: Vec<usize>,
}

/// A direct dependency edge: package `i` depends on package `j`.
pub open spec fn dep_edge(pkgs: Seq<LockPackage>, i: int, j: int) -> bool {
    &&& 0 <= i < pkgs.len()
    &&& 0 <= j < pkgs.len()
    &&& pkgs[i].deps@.contains(j as usize)
}

/// A non-empty sequence of nodes in which each node depends on the next.
pub open spec fn is_dep_path(pkgs: Seq<LockPackage>, p: Seq<int>) -> bool {
    &&& p.len() >= 1
    &&& forall|k: int| 0 <= k < p.len() ==> 0 <= #[trigger] p[k] < pkgs.len()
    &&& forall|k: int| 0 <= k < p.len() - 1 ==> dep_edge(pkgs, #[trigger] p[k], p[k + 1])
}

/// Package `i` depends on package `s`, directly or transitively; holds
/// reflexively for `i == s`.
pub open spec fn depends_on(pkgs: Seq<LockPackage>, i: int, s: int) -> bool {
    exists|p: Seq<int>| is_dep_path(pkgs, p) && p.first() == i && p.last() == s
}

/// Node `i` carries the queried name and version.
pub open spec fn node_matches(
    pkgs: Seq<LockPackage>,
    i: int,
    name: Seq<char>,
    version: Seq<char>,
) -> bool {
    &&& 0 <= i < pkgs.len()
    &&& pkgs[i].name@ == name
    &&& pkgs[i].version@ == version
}

/// Some node carries the queried name and version.
pub open spec fn has_node(pkgs: Seq<LockPackage>, name: Seq<char>, version: Seq<char>) -> bool {
    exists|i: int| node_matches(pkgs, i, name, version)
}

/// Node `i` is the first node carrying the queried name and version.
pub open spec fn first_node(
    pkgs: Seq<LockPackage>,
    name: Seq<char>,
    version: Seq<char>,
    i: int,
) -> bool {
    &&& node_matches(pkgs, i, name, version)
    &&& forall|j: int| 0 <= j < i ==> !node_matches(pkgs, j, name, version)
}

/// Package `i` is reported as a reverse dependent of `s`: it is a distinct
/// package that depends on `s` and is a workspace member or path-local
/// package, never a registry-sourced external one.
pub open spec fn is_reported_dependent(pkgs: Seq<LockPackage>, s: int, i: int) -> bool {
    &&& 0 <= i < pkgs.len()
    &&& i != s
    &&& pkgs[i].local
    &&& depends_on(pkgs, i, s)
}

/// `names` holds exactly the names of the reported reverse dependents of `s`.
pub open spec fn dependents_names_ok(pkgs: Seq<LockPackage>, s: int, names: Seq<String>) -> bool {
    forall|nm: Seq<char>|
        strings_view(names).contains(nm) <==> exists|i: int|
            is_reported_dependent(pkgs, s, i) && pkgs[i].name@ == nm
}

/// The incoming-edge index lists, for every node `j`, exactly the in-range
/// nodes whose dependency lists contain `j`.
pub open spec fn rev_index_ok(pkgs: Seq<LockPackage>, rdeps: Seq<Vec<usize>>) -> bool {
    &&& rdeps.len() == pkgs.len()
    &&& forall|j: int, a: usize|
        0 <= j < pkgs.len() ==> (#[trigger] rdeps[j]@.contains(a) <==> (a < pkgs.len()
            && pkgs[a as int].deps@.contains(j as usize)))
}

/// The visited set is closed under incoming dependency edges.
pub open spec fn closed_under_incoming(pkgs: Seq<LockPackage>, visited: Seq<bool>) -> bool {
    forall|i: int, j: int| #[trigger]
        dep_edge(pkgs, i, j) && visited[j] ==> visited[i]
}

/// The number of true entries of a visited set.
pub open spec fn count_true(s: Seq<bool>) -> int
    decreases s.len(),
{
    if s.len() == 0 {
        0
    } else {
        count_true(s.drop_last()) + if s.last() {
            1int
        } else {
            0int
        }
    }
}

proof fn lemma_count_true_le(s: Seq<bool>)
    ensures
        0 <= count_true(s) <= s.len(),
    decreases s.len(),
{
    if s.len() > 0 {
        lemma_count_true_le(s.drop_last());
    }
}

proof fn lemma_count_true_update(s: Seq<bool>, i: int)
    requires
        0 <= i < s.len(),
        !s[i],
    ensures
        count_true(s.update(i, true)) == count_true(s) + 1,
    decreases s.len(),
{
    let t = s.update(i, true);
    if i == s.len() - 1 {
        assert(t.drop_last() =~= s.drop_last());
    } else {
        assert(t.drop_last() =~= s.drop_last().update(i, true));
        lemma_count_true_update(s.drop_last(), i);
    }
}

/// A single node is a path from itself to itself.
pub proof fn lemma_depends_refl(pkgs: Seq<LockPackage>, s: int)
    requires
        0 <= s < pkgs.len(),
    ensures
        depends_on(pkgs, s, s),
{
    let p = seq![s];
    assert(is_dep_path(pkgs, p));
    assert(p.first() == s && p.last() == s);
}

/// Prepending a direct dependency edge to a dependency path keeps it a path.
pub proof fn lemma_depends_step(pkgs: Seq<LockPackage>, i: int, j: int, s: int)
    requires
        dep_edge(pkgs, i, j),
        depends_on(pkgs, j, s),
    ensures
        depends_on(pkgs, i, s),
{
    let p = choose|p: Seq<int>| is_dep_path(pkgs, p) && p.first() == j && p.last() == s;
    let q = seq![i] + p;
    assert forall|k: int| 0 <= k < q.len() - 1 implies dep_edge(pkgs, #[trigger] q[k], q[k + 1]) by {
        if k > 0 {
            assert(q[k] == p[k - 1]);
            assert(q[k + 1] == p[k]);
        }
    }
    assert(is_dep_path(pkgs, q));
    assert(q.first() == i && q.last() == s);
}

/// Any node with a dependency path into a visited set closed under incoming
/// edges is itself visited.
proof fn lemma_closed_covers_path(pkgs: Seq<LockPackage>, visited: Seq<bool>, p: Seq<int>)
    requires
        visited.len() == pkgs.len(),
        closed_under_incoming(pkgs, visited),
        is_dep_path(pkgs, p),
        visited[p.last()],
    ensures
        visited[p.first()],
    decreases p.len(),
{
    if p.len() > 1 {
        let rest = p.subrange(1, p.len() as int);
        assert forall|k: int| 0 <= k < rest.len() - 1 implies dep_edge(
            pkgs,
            #[trigger] rest[k],
            rest[k + 1],
        ) by {
            assert(rest[k] == p[k + 1]);
            assert(rest[k + 1] == p[k + 2]);
        }
        assert(is_dep_path(pkgs, rest));
        assert(rest.last() == p.last());
        lemma_closed_covers_path(pkgs, visited, rest);
        assert(dep_edge(pkgs, p[0], p[1]));
    }
}

/// Directed dependency graph over the lock packages, with an incoming-edge
/// index built once at construction.
pub struct DepGraph {
    /// The graph nodes; node `i` is `pkgs[i]`.
    pub pkgs: Vec<LockPackage>,
    /// For each node `j`, the nodes that depend directly on `j`.
    pub rdeps: Vec<Vec<usize>>,
}

impl DepGraph {
    /// The incoming-edge index is consistent with the dependency lists.
    pub open spec fn wf(self) -> bool {
        rev_index_ok(self.pkgs@, self.rdeps@)
    }

    /// Builds the graph from the lock packages, computing the incoming-edge
    /// index once. Dependency indices outside the package list form no edge.
    pub fn build(pkgs: Vec<LockPackage>) -> (g: DepGraph)
        ensures
            g.wf(),
            g.pkgs@ == pkgs@,
    {
        let n: usize = pkgs.len();
        let mut rdeps: Vec<Vec<usize>> = Vec::new();
        let mut j: usize = 0;
        while j < n
            invariant
                n == pkgs@.len(),
                rdeps@.len() == j <= n,
                forall|b: int, a: usize|
                    0 <= b < j ==> (#[trigger] rdeps@[b]@.contains(a) <==> (a < n
                        && pkgs@[a as int].deps@.contains(b as usize))),
            decreases n - j,
        {
            let mut row: Vec<usize> = Vec::new();
            let mut i: usize = 0;
            while i < n
                invariant
                    n == pkgs@.len(),
                    i <= n,
                    j < n,
                    forall|a: usize| #[trigger]
                        row@.contains(a) <==> (a < i && pkgs@[a as int].deps@.contains(j)),
                decreases n - i,
            {
                if contains_usize(&pkgs[i].deps, j) {
                    proof {
                        assert forall|a: usize| #[trigger]
                            row@.push(i).contains(a) <==> (a < i + 1 && pkgs@[a as int].deps@.contains(
                            j,
                        )) by {
                            lemma_push_contains(row@, i, a);
                        }
                    }
                    row.push(i);
                } else {
                    proof {
                        assert forall|a: usize| #[trigger]
                            row@.contains(a) <==> (a < i + 1 && pkgs@[a as int].deps@.contains(j)) by {}
                    }
                }
                i = i + 1;
            }
            rdeps.push(row);
            j = j + 1;
        }
        DepGraph { pkgs, rdeps }
    }

    /// The number of packages in the graph.
    pub fn len(&self) -> (n: usize)
        ensures
            n == self.pkgs@.len(),
    {
        self.pkgs.len()
    }

    /// Finds the first node with the given name and version.
    pub fn find_node(&self, name: &String, version: &String) -> (r: Option<usize>)
        ensures
            match r {
                Some(i) => first_node(self.pkgs@, name@, version@, i as int),
                None => !has_node(self.pkgs@, name@, version@),
            },
    {
        let mut i: usize = 0;
        while i < self.pkgs.len()
            invariant
                i <= self.pkgs@.len(),
                forall|j: int| 0 <= j < i ==> !node_matches(self.pkgs@, j, name@, version@),
            decreases self.pkgs@.len() - i,
        {
            if self.pkgs[i].name == *name && self.pkgs[i].version == *version {
                return Some(i);
            }
            i = i + 1;
        }
        None
    }

    /// Marks every package that depends, directly or transitively, on the
    /// package `s`, walking incoming edges and never revisiting a node.
    fn reverse_closure(&self, s: usize) -> (visited: Vec<bool>)
        requires
            self.wf(),
            s < self.pkgs@.len(),
        ensures
            visited@.len() == self.pkgs@.len(),
            forall|i: int|
                0 <= i < visited@.len() ==> (visited@[i] <==> depends_on(self.pkgs@, i, s as int)),
    {
        let n: usize = self.pkgs.len();
        let mut visited: Vec<bool> = Vec::new();
        let mut z: usize = 0;
        while z < n
            invariant
                visited@.len() == z <= n,
                forall|i: int| 0 <= i < z ==> !visited@[i],
            decreases n - z,
        {
            visited.push(false);
            z = z + 1;
        }
        proof {
            if count_true(visited@) != 0 {
                lemma_count_true_le(visited@);
            }
            lemma_count_true_update(visited@, s as int);
            lemma_depends_refl(self.pkgs@, s as int);
        }
        let mut stack: Vec<usize> = Vec::new();
        visited.set(s, true);
        stack.push(s);
        proof {
            lemma_count_true_le(visited@);
            assert(stack@[0] == s);
            assert(stack@.contains(s));
            assert(forall|j: int| 0 <= j < n && #[trigger] visited@[j] ==> j == s as int);
        }
        while stack.len() > 0
            invariant
                self.wf(),
                s < n,
                n == self.pkgs@.len(),
                visited@.len() == n,
                visited@[s as int],
                count_true(visited@) <= n,
                forall|k: int| 0 <= k < stack@.len() ==> #[trigger] stack@[k] < n,
                forall|k: int| 0 <= k < stack@.len() ==> visited@[#[trigger] stack@[k] as int],
                forall|i: int| 0 <= i < n && #[trigger] visited@[i] ==> depends_on(self.pkgs@, i, s as int),
                forall|i: int, j: int|
                    #[trigger] dep_edge(self.pkgs@, i, j) && visited@[j] && !stack@.contains(
                        j as usize,
                    ) ==> visited@[i],
            decreases n - count_true(visited@), stack@.len(),
        {
            let ghost c0 = count_true(visited@);
            let ghost st0 = stack@;
            let x: usize = stack.pop().unwrap();
            proof {
                // popping removes only x: any other element keeps its index
                assert forall|j: usize| j != x && st0.contains(j) implies stack@.contains(j) by {
                    let m = choose|m: int| 0 <= m < st0.len() && st0[m] == j;
                    assert(stack@[m] == j);
                }
                assert forall|m: int| 0 <= m < self.rdeps@[x as int]@.len() implies #[trigger] self.rdeps@[x as int]@[m] < n by {
                    assert(self.rdeps@[x as int]@.contains(self.rdeps@[x as int]@[m]));
                }
            }
            let row_len: usize = self.rdeps[x].len();
            let mut k: usize = 0;
            while k < row_len
                invariant
                    self.wf(),
                    s < n,
                    n == self.pkgs@.len(),
                    x < n,
                    row_len == self.rdeps@[x as int]@.len(),
                    k <= row_len,
                    visited@.len() == n,
                    visited@[s as int],
                    visited@[x as int],
                    c0 <= count_true(visited@) <= n,
                    count_true(visited@) == c0 ==> stack@ == st0.drop_last(),
                    stack@.len() >= st0.len() - 1,
                    forall|m: int| 0 <= m < stack@.len() ==> #[trigger] stack@[m] < n,
                    forall|m: int| 0 <= m < stack@.len() ==> visited@[#[trigger] stack@[m] as int],
                    forall|i: int|
                        0 <= i < n && #[trigger] visited@[i] ==> depends_on(self.pkgs@, i, s as int),
                    forall|m: int|
                        0 <= m < row_len ==> #[trigger] self.rdeps@[x as int]@[m] < n,
                    forall|m: int|
                        0 <= m < k ==> visited@[#[trigger] self.rdeps@[x as int]@[m] as int],
                    forall|i: int, j: int|
                        #[trigger] dep_edge(self.pkgs@, i, j) && visited@[j] && !stack@.contains(
                            j as usize,
                        ) && j != x ==> visited@[i],
                decreases row_len - k,
            {
                let p: usize = self.rdeps[x][k];
                proof {
                    assert(self.rdeps@[x as int]@.contains(p));
                }
                if !visited[p] {
                    proof {
                        assert(self.pkgs@[p as int].deps@.contains(x));
                        assert(dep_edge(self.pkgs@, p as int, x as int));
                        lemma_depends_step(self.pkgs@, p as int, x as int, s as int);
                        lemma_count_true_update(visited@, p as int);
                        lemma_count_true_le(visited@.update(p as int, true));
                        lemma_push_contains(stack@, p, p);
                        assert forall|j: usize| #[trigger]
                            stack@.push(p).contains(j) <==> (stack@.contains(j) || j == p) by {
                            lemma_push_contains(stack@, p, j);
                        }
                    }
                    visited.set(p, true);
                    stack.push(p);
                }
                k = k + 1;
            }
            proof {
                // every direct dependent of x is now visited, so x is closed
                assert forall|i: int, j: int|
                    #[trigger] dep_edge(self.pkgs@, i, j) && visited@[j] && !stack@.contains(
                        j as usize,
                    ) implies visited@[i] by {
                    if j == x {
                        assert(self.rdeps@[x as int]@.contains(i as usize));
                        let m = choose|m: int|
                            0 <= m < self.rdeps@[x as int]@.len() && self.rdeps@[x as int]@[m]
                                == i as usize;
                        assert(visited@[self.rdeps@[x as int]@[m] as int]);
                    }
                }
            }
        }
        proof {
            assert forall|i: int|
                0 <= i < n && depends_on(self.pkgs@, i, s as int) implies visited@[i] by {
                let p = choose|p: Seq<int>|
                    is_dep_path(self.pkgs@, p) && p.first() == i && p.last() == s as int;
                assert(closed_under_incoming(self.pkgs@, visited@));
                lemma_closed_covers_path(self.pkgs@, visited@, p);
            }
        }
        visited
    }
}

/// Closure completeness: every name of the reported reverse-dependent set
/// comes from a distinct local package that depends on the seed node — and
/// `depends_on` is by definition the existence of a directed dependency
/// path from that package to the seed.
pub proof fn lemma_closure_complete(
    pkgs: Seq<LockPackage>,
    s: int,
    names: Seq<String>,
    nm: Seq<char>,
)
    requires
        dependents_names_ok(pkgs, s, names),
        strings_view(names).contains(nm),
    ensures
        exists|t: int| #[trigger] is_reported_dependent(pkgs, s, t) && pkgs[t].name@ == nm,
{
}

/// A transitive dependency is witnessed by an explicit directed path.
pub proof fn lemma_depends_has_path(pkgs: Seq<LockPackage>, i: int, s: int) -> (p: Seq<int>)
    requires
        depends_on(pkgs, i, s),
    ensures
        is_dep_path(pkgs, p),
        p.first() == i,
        p.last() == s,
{
    choose|p: Seq<int>| is_dep_path(pkgs, p) && p.first() == i && p.last() == s
}

/// Exclusion of pure-registry dependents, first half: a name carried only
/// by registry-sourced packages never appears in the reported set.
pub proof fn lemma_registry_never_reported(
    pkgs: Seq<LockPackage>,
    s: int,
    names: Seq<String>,
    nm: Seq<char>,
)
    requires
        dependents_names_ok(pkgs, s, names),
        forall|t: int| 0 <= t < pkgs.len() && pkgs[t].name@ == nm ==> !(#[trigger] pkgs[t].local),
    ensures
        !strings_view(names).contains(nm),
{
    if strings_view(names).contains(nm) {
        let t = choose|t: int| is_reported_dependent(pkgs, s, t) && pkgs[t].name@ == nm;
        assert(pkgs[t].local);
    }
}

/// Exclusion of pure-registry dependents, second half: a local package that
/// depends on the seed — even when every intermediate node of the path is
/// registry-sourced — is still reported.
pub proof fn lemma_local_dependent_reported(
    pkgs: Seq<LockPackage>,
    s: int,
    names: Seq<String>,
    t: int,
)
    requires
        dependents_names_ok(pkgs, s, names),
        0 <= t < pkgs.len(),
        t != s,
        pkgs[t].local,
        depends_on(pkgs, t, s),
    ensures
        strings_view(names).contains(pkgs[t].name@),
{
    assert(is_reported_dependent(pkgs, s, t));
}

/// Reports the names of every package that depends, directly or
/// transitively, on the first package matching the queried name and version,
/// keeping only workspace members and path-local packages; registry-sourced
/// external packages are traversed through but never reported. Fails with
/// `PackageNotInGraph` exactly when no node matches.
pub fn get_dependents_of_pkg(graph: &DepGraph, name: &String, version: &String) -> (r: Result<
    Vec<String>,
    SelectError,
>)
    requires
        graph.wf(),
    ensures
        r is Err <==> !has_node(graph.pkgs@, name@, version@),
        r matches Err(e) ==> (e matches SelectError::PackageNotInGraph(n) && n@ == name@),
        r is Ok ==> exists|s: int| first_node(graph.pkgs@, name@, version@, s),
        r matches Ok(names) ==> forall|s: int| #[trigger]
            first_node(graph.pkgs@, name@, version@, s) ==> dependents_names_ok(
                graph.pkgs@,
                s,
                names@,
            ),
        r matches Ok(names) ==> forall|a: int, b: int|
            0 <= a < b < names@.len() ==> strings_view(names@)[a] != strings_view(names@)[b],
{
    let s: usize = match graph.find_node(name, version) {
        Some(i) => i,
        None => {
            return Err(SelectError::PackageNotInGraph(name.clone()));
        },
    };
    let visited = graph.reverse_closure(s);
    let n: usize = graph.pkgs.len();
    let mut names: Vec<String> = Vec::new();
    let mut i: usize = 0;
    while i < n
        invariant
            n == graph.pkgs@.len(),
            visited@.len() == n,
            s < n,
            i <= n,
            forall|t: int| 0 <= t < n ==> (visited@[t] <==> depends_on(graph.pkgs@, t, s as int)),
            forall|nm: Seq<char>|
                strings_view(names@).contains(nm) <==> exists|t: int|
                    0 <= t < i && t != s && graph.pkgs@[t].local && visited@[t]
                        && graph.pkgs@[t].name@ == nm,
            forall|a: int, b: int|
                0 <= a < b < names@.len() ==> strings_view(names@)[a] != strings_view(names@)[b],
        decreases n - i,
    {
        let take = visited[i] && i != s && graph.pkgs[i].local;
        if take && !contains_string(&names, &graph.pkgs[i].name) {
            let nmv: String = graph.pkgs[i].name.clone();
            proof {
                assert(strings_view(names@.push(nmv)) =~= strings_view(names@).push(nmv@));
                assert forall|nm: Seq<char>| #[trigger]
                    strings_view(names@.push(nmv)).contains(nm) <==> (strings_view(
                    names@,
                ).contains(nm) || nm == nmv@) by {
                    lemma_push_contains(strings_view(names@), nmv@, nm);
                }
            }
            names.push(nmv);
            proof {
                assert forall|nm: Seq<char>| #[trigger]
                    strings_view(names@).contains(nm) <==> exists|t: int|
                        0 <= t < i + 1 && t != s && graph.pkgs@[t].local && visited@[t]
                            && graph.pkgs@[t].name@ == nm by {
                    if strings_view(names@).contains(nm) {
                        if nm == graph.pkgs@[i as int].name@ {
                            assert(0 <= i < i + 1 && i != s && graph.pkgs@[i as int].local
                                && visited@[i as int]);
                        }
                    }
                }
            }
        } else {
            proof {
                assert forall|nm: Seq<char>| #[trigger]
                    strings_view(names@).contains(nm) <==> exists|t: int|
                        0 <= t < i + 1 && t != s && graph.pkgs@[t].local && visited@[t]
                            && graph.pkgs@[t].name@ == nm by {
                    if exists|t: int|
                        0 <= t < i + 1 && t != s && graph.pkgs@[t].local && visited@[t]
                            && graph.pkgs@[t].name@ == nm {
                        let t = choose|t: int|
                            0 <= t < i + 1 && t != s && graph.pkgs@[t].local && visited@[t]
                                && graph.pkgs@[t].name@ == nm;
                        if t == i {
                            assert(strings_view(names@).contains(nm));
                        }
                    }
                }
            }
        }
        i = i + 1;
    }
    proof {
        let pkgs = graph.pkgs@;
        assert forall|nm: Seq<char>|
            strings_view(names@).contains(nm) <==> (exists|t: int|
                is_reported_dependent(pkgs, s as int, t) && pkgs[t].name@ == nm) by {
            if strings_view(names@).contains(nm) {
                let t = choose|t: int|
                    0 <= t < n && t != s && pkgs[t].local && visited@[t] && pkgs[t].name@ == nm;
                assert(depends_on(pkgs, t, s as int));
                assert(is_reported_dependent(pkgs, s as int, t) && pkgs[t].name@ == nm);
            }
            if exists|t: int| is_reported_dependent(pkgs, s as int, t) && pkgs[t].name@ == nm {
                let t = choose|t: int|
                    is_reported_dependent(pkgs, s as int, t) && pkgs[t].name@ == nm;
                assert(visited@[t]);
                assert(0 <= t < n && t != s && pkgs[t].local && visited@[t] && pkgs[t].name@
                    == nm);
            }
        }
        assert(dependents_names_ok(pkgs, s as int, names@));
        assert(first_node(pkgs, name@, version@, s as int));
        assert forall|ss: int| #[trigger]
            first_node(pkgs, name@, version@, ss) implies dependents_names_ok(
            pkgs,
            ss,
            names@,
        ) by {
            assert(node_matches(pkgs, ss, name@, version@));
            if ss < s as int {
                assert(!node_matches(pkgs, ss, name@, version@));
            }
            if ss > s as int {
                assert(!node_matches(pkgs, s as int, name@, version@));
            }
            assert(ss == s as int);
        }
    }
    Ok(names)
}

} // verus!
