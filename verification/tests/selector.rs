use brut::SelectError;
use brut::affected::Member;
use brut::affected::compute_affected;
use brut::affected::get_crates_from_files;
use brut::changes::ChangeKind;
use brut::changes::FileDelta;
use brut::changes::get_changed_files;
use brut::config::Config;
use brut::dispatch::CommandVerb;
use brut::dispatch::invocation_args;
use brut::graph::DepGraph;
use brut::graph::LockPackage;
use brut::graph::get_dependents_of_pkg;
use brut::paths::make_absolute;
use brut::paths::split_path;

fn s(x: &str) -> String {
    x.to_string()
}

fn segs(parts: &[&str]) -> Vec<String> {
    parts.iter().map(|p| p.to_string()).collect()
}

fn member(name: &str, version: &str, root: &[&str]) -> Member {
    Member { name: s(name), version: s(version), root: segs(root) }
}

fn pkg(name: &str, version: &str, local: bool, deps: &[usize]) -> LockPackage {
    LockPackage { name: s(name), version: s(version), local, deps: deps.to_vec() }
}

fn no_triggers() -> globset::GlobSet {
    Config { global_dependencies: Vec::new() }.global_deps_matcher().unwrap()
}

fn triggers(pats: &[&str]) -> globset::GlobSet {
    Config { global_dependencies: segs(pats) }.global_deps_matcher().unwrap()
}

/// The three-member workspace: `api` depends on `core`, `cli` on `api`.
fn chain_members() -> Vec<Member> {
    vec![
        member("core", "1.0.0", &["ws", "core"]),
        member("api", "1.0.0", &["ws", "api"]),
        member("cli", "1.0.0", &["ws", "cli"]),
    ]
}

fn chain_graph() -> DepGraph {
    DepGraph::build(vec![
        pkg("core", "1.0.0", true, &[]),
        pkg("api", "1.0.0", true, &[0]),
        pkg("cli", "1.0.0", true, &[1]),
    ])
}

fn sorted(mut v: Vec<String>) -> Vec<String> {
    v.sort();
    v
}

#[test]
fn chain_change_affects_all_dependents() {
    let members = chain_members();
    let graph = chain_graph();
    let changed = vec![s("/ws/core/src/lib.rs")];
    let r = compute_affected(&segs(&["ws"]), &members, &graph, &changed, &no_triggers()).unwrap();
    assert_eq!(sorted(r), vec![s("api"), s("cli"), s("core")]);
}

#[test]
fn unowned_path_yields_empty_set() {
    let members = chain_members();
    let graph = chain_graph();
    let changed = vec![s("/ws/docs/readme.md")];
    let r = compute_affected(&segs(&["ws"]), &members, &graph, &changed, &no_triggers()).unwrap();
    assert!(r.is_empty());
}

#[test]
fn global_trigger_selects_every_member() {
    let members = chain_members();
    // no graph relation between the members and the root manifest at all
    let graph = DepGraph::build(vec![
        pkg("core", "1.0.0", true, &[]),
        pkg("api", "1.0.0", true, &[]),
        pkg("cli", "1.0.0", true, &[]),
    ]);
    let changed = vec![s("/ws/Cargo.toml")];
    let t = triggers(&["**/Cargo.toml"]);
    let r = compute_affected(&segs(&["ws"]), &members, &graph, &changed, &t).unwrap();
    assert_eq!(sorted(r), vec![s("api"), s("cli"), s("core")]);
}

#[test]
fn non_matching_trigger_falls_through_to_graph() {
    let members = chain_members();
    let graph = chain_graph();
    let changed = vec![s("/ws/api/src/main.rs")];
    let t = triggers(&["**/*.md"]);
    let r = compute_affected(&segs(&["ws"]), &members, &graph, &changed, &t).unwrap();
    assert_eq!(sorted(r), vec![s("api"), s("cli")]);
}

#[test]
fn selection_is_idempotent() {
    let members = chain_members();
    let graph = chain_graph();
    let changed = vec![s("/ws/core/src/lib.rs"), s("/ws/docs/x.md")];
    let cwd = segs(&["ws"]);
    let r1 = compute_affected(&cwd, &members, &graph, &changed, &no_triggers()).unwrap();
    let r2 = compute_affected(&cwd, &members, &graph, &changed, &no_triggers()).unwrap();
    assert_eq!(sorted(r1), sorted(r2));
}

#[test]
fn adding_a_changed_file_never_shrinks_the_set() {
    let members = chain_members();
    let graph = chain_graph();
    let cwd = segs(&["ws"]);
    let changed1 = vec![s("/ws/api/src/lib.rs")];
    let mut changed2 = changed1.clone();
    changed2.push(s("/ws/core/src/lib.rs"));
    let r1 = compute_affected(&cwd, &members, &graph, &changed1, &no_triggers()).unwrap();
    let r2 = compute_affected(&cwd, &members, &graph, &changed2, &no_triggers()).unwrap();
    for name in &r1 {
        assert!(r2.contains(name), "{name} disappeared when a changed file was added");
    }
}

#[test]
fn dependents_are_transitively_closed() {
    // diamond: both mid1 and mid2 depend on base, top depends on both;
    // every dependent is connected to base by a directed path, once each
    let graph = DepGraph::build(vec![
        pkg("base", "1.0.0", true, &[]),
        pkg("mid1", "1.0.0", true, &[0]),
        pkg("mid2", "1.0.0", true, &[0]),
        pkg("top", "1.0.0", true, &[1, 2]),
    ]);
    let r = get_dependents_of_pkg(&graph, &s("base"), &s("1.0.0")).unwrap();
    assert_eq!(sorted(r), vec![s("mid1"), s("mid2"), s("top")]);
}

#[test]
fn registry_dependents_are_excluded_but_traversed() {
    // tool (local) reaches core only through the registry package mid
    let graph = DepGraph::build(vec![
        pkg("core", "1.0.0", true, &[]),
        pkg("mid", "0.3.0", false, &[0]),
        pkg("tool", "1.0.0", true, &[1]),
    ]);
    let r = get_dependents_of_pkg(&graph, &s("core"), &s("1.0.0")).unwrap();
    assert_eq!(r, vec![s("tool")]);
}

#[test]
fn external_cycles_do_not_hang_the_traversal() {
    // ext1 and ext2 are registry packages depending on each other
    let graph = DepGraph::build(vec![
        pkg("core", "1.0.0", true, &[]),
        pkg("ext1", "0.1.0", false, &[0, 2]),
        pkg("ext2", "0.1.0", false, &[1]),
        pkg("tool", "1.0.0", true, &[2]),
    ]);
    let r = get_dependents_of_pkg(&graph, &s("core"), &s("1.0.0")).unwrap();
    assert_eq!(r, vec![s("tool")]);
}

#[test]
fn missing_package_is_reported_with_its_name() {
    let graph = DepGraph::build(vec![pkg("other", "1.0.0", true, &[])]);
    let r = get_dependents_of_pkg(&graph, &s("ghost"), &s("1.0.0"));
    assert!(matches!(r, Err(SelectError::PackageNotInGraph(n)) if n == "ghost"));
}

#[test]
fn stale_lock_state_fails_the_selection() {
    let members = chain_members();
    let graph = DepGraph::build(Vec::new());
    let changed = vec![s("/ws/core/src/lib.rs")];
    let r = compute_affected(&segs(&["ws"]), &members, &graph, &changed, &no_triggers());
    assert!(matches!(r, Err(SelectError::PackageNotInGraph(n)) if n == "core"));
}

#[test]
fn nested_roots_attribute_to_every_ancestor() {
    let members = vec![
        member("parent", "1.0.0", &["ws", "outer"]),
        member("child", "1.0.0", &["ws", "outer", "inner"]),
    ];
    let changed = vec![s("/ws/outer/inner/src/lib.rs")];
    let seeds = get_crates_from_files(&segs(&["ws"]), &members, &changed);
    assert_eq!(seeds, vec![0, 1]);
}

#[test]
fn local_non_member_dependents_are_reported() {
    // localdep is a path dependency outside the workspace member list; it is
    // still reported, while the registry package reg is not
    let members = vec![member("core", "1.0.0", &["ws", "core"])];
    let graph = DepGraph::build(vec![
        pkg("core", "1.0.0", true, &[]),
        pkg("localdep", "0.1.0", true, &[0]),
        pkg("reg", "0.1.0", false, &[0]),
    ]);
    let changed = vec![s("/ws/core/src/lib.rs")];
    let r = compute_affected(&segs(&["ws"]), &members, &graph, &changed, &no_triggers()).unwrap();
    assert_eq!(sorted(r), vec![s("core"), s("localdep")]);
}

#[test]
fn config_both_sources_is_a_conflict() {
    let a = Config { global_dependencies: vec![s("**/Cargo.toml")] };
    let b = Config { global_dependencies: Vec::new() };
    let r = Config::load(Some(a), Some(b));
    assert!(matches!(r, Err(SelectError::ConfigurationConflict)));
}

#[test]
fn config_single_source_is_selected() {
    let a = Config { global_dependencies: vec![s("*.lock")] };
    let r = Config::load(Some(a), None).unwrap().unwrap();
    assert_eq!(r.global_dependencies, vec![s("*.lock")]);
    let b = Config { global_dependencies: vec![s("*.toml")] };
    let r = Config::load(None, Some(b)).unwrap().unwrap();
    assert_eq!(r.global_dependencies, vec![s("*.toml")]);
}

#[test]
fn config_no_source_is_no_configuration() {
    let r = Config::load(None, None).unwrap();
    assert!(r.is_none());
}

#[test]
fn invalid_glob_pattern_is_rejected_with_the_pattern() {
    let c = Config { global_dependencies: vec![s("ok/*"), s("bad[")] };
    let r = c.global_deps_matcher();
    assert!(matches!(r, Err(SelectError::BadGlobPattern(p)) if p == "bad["));
}

#[test]
fn rename_contributes_both_paths() {
    let deltas = vec![FileDelta {
        kind: ChangeKind::Modified,
        old_path: Some(s("core/src/old.rs")),
        new_path: Some(s("api/src/new.rs")),
    }];
    let files = get_changed_files(&deltas);
    assert_eq!(sorted(files), vec![s("api/src/new.rs"), s("core/src/old.rs")]);
}

#[test]
fn deletion_contributes_its_old_path() {
    let deltas = vec![FileDelta {
        kind: ChangeKind::Deleted,
        old_path: Some(s("core/src/gone.rs")),
        new_path: None,
    }];
    let files = get_changed_files(&deltas);
    assert_eq!(files, vec![s("core/src/gone.rs")]);
}

#[test]
fn changed_files_are_deduplicated() {
    let deltas = vec![
        FileDelta {
            kind: ChangeKind::Added,
            old_path: None,
            new_path: Some(s("core/src/lib.rs")),
        },
        FileDelta {
            kind: ChangeKind::Modified,
            old_path: Some(s("core/src/lib.rs")),
            new_path: Some(s("core/src/lib.rs")),
        },
    ];
    let files = get_changed_files(&deltas);
    assert_eq!(files, vec![s("core/src/lib.rs")]);
}

#[test]
fn relative_changed_paths_resolve_against_the_working_directory() {
    let members = chain_members();
    let graph = chain_graph();
    let changed = vec![s("core/src/lib.rs")];
    let r = compute_affected(&segs(&["ws"]), &members, &graph, &changed, &no_triggers()).unwrap();
    assert_eq!(sorted(r), vec![s("api"), s("cli"), s("core")]);
}

#[test]
fn paths_are_normalized_lexically() {
    assert_eq!(make_absolute("src/./lib.rs", &segs(&["ws", "core"])), segs(&[
        "ws", "core", "src", "lib.rs",
    ]));
    assert_eq!(make_absolute("../api/x.rs", &segs(&["ws", "core"])), segs(&["ws", "api", "x.rs"]));
    assert_eq!(make_absolute("/a/../b//c/", &segs(&["ws"])), segs(&["b", "c"]));
    assert_eq!(make_absolute("/../top.rs", &segs(&["ws"])), segs(&["top.rs"]));
}

#[test]
fn split_path_drops_empty_segments() {
    let (abs, parts) = split_path("//ws///core/");
    assert!(abs);
    assert_eq!(parts, segs(&["ws", "core"]));
    let (abs, parts) = split_path("a/b.rs");
    assert!(!abs);
    assert_eq!(parts, segs(&["a", "b.rs"]));
    let (abs, parts) = split_path("");
    assert!(!abs);
    assert_eq!(parts, Vec::<String>::new());
}

#[test]
fn empty_change_set_selects_nothing() {
    let members = chain_members();
    let graph = chain_graph();
    let r = compute_affected(&segs(&["ws"]), &members, &graph, &Vec::new(), &no_triggers())
        .unwrap();
    assert!(r.is_empty());
}

#[test]
fn invocation_lists_the_verb_and_every_target() {
    let args = invocation_args(&CommandVerb::Test, &vec![s("core"), s("api")]);
    assert_eq!(args, vec![s("test"), s("-p"), s("core"), s("-p"), s("api")]);
    let args = invocation_args(&CommandVerb::Clippy, &Vec::new());
    assert_eq!(args, vec![s("clippy")]);
}

#[test]
fn two_versions_of_a_name_are_distinct_nodes() {
    // the queried version decides which node's dependents are reported
    let graph = DepGraph::build(vec![
        pkg("dual", "1.0.0", true, &[]),
        pkg("dual", "2.0.0", true, &[]),
        pkg("user1", "1.0.0", true, &[0]),
        pkg("user2", "1.0.0", true, &[1]),
    ]);
    let r = get_dependents_of_pkg(&graph, &s("dual"), &s("2.0.0")).unwrap();
    assert_eq!(r, vec![s("user2")]);
}
