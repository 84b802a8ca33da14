use cgroups_explorer::{
    join_components, strip_base, subtree_root, Explorer, ExplorerBuilderError, Generation, V2Step, WalkItem,
};

fn s(v: &[&str]) -> Vec<String> {
    v.iter().map(|x| x.to_string()).collect()
}

fn root() -> Vec<String> {
    s(&["sys", "fs", "cgroup"])
}

fn dir(rel: &[&str]) -> WalkItem {
    let mut path = root();
    path.extend(s(rel));
    WalkItem::Entry { path, is_dir: true }
}

fn file(rel: &[&str]) -> WalkItem {
    let mut path = root();
    path.extend(s(rel));
    WalkItem::Entry { path, is_dir: false }
}

fn under(base: &[String], rel: &[&str], is_dir: bool) -> WalkItem {
    let mut path = base.to_vec();
    path.extend(s(rel));
    WalkItem::Entry { path, is_dir }
}

fn tree_abx() -> Vec<WalkItem> {
    vec![
        dir(&["a"]),
        dir(&["a", "b"]),
        dir(&["a", "c"]),
        dir(&["x"]),
        dir(&["x", "y"]),
    ]
}

fn scenario_tree() -> Vec<WalkItem> {
    vec![
        file(&["README"]),
        dir(&["user.slice"]),
        dir(&["user.slice", "app-1.scope"]),
    ]
}

#[test]
fn no_patterns_yields_every_directory() {
    let e = Explorer::v2().build().unwrap();
    let found = e.collect_v2(&root(), &tree_abx());
    assert_eq!(found, s(&["a", "a/b", "a/c", "x", "x/y"]));
}

#[test]
fn glob_filter_selects_children() {
    let e = Explorer::v2().include_globs(s(&["a/*"])).build().unwrap();
    let found = e.collect_v2(&root(), &tree_abx());
    assert_eq!(found, s(&["a/b", "a/c"]));
}

#[test]
fn v1_deduplicates_across_controllers() {
    let e = Explorer::v1().build().unwrap();
    let cpu = s(&["sys", "fs", "cgroup", "cpu"]);
    let mem = s(&["sys", "fs", "cgroup", "memory"]);
    let walks = vec![
        vec![
            under(&cpu, &["svc.slice"], true),
            under(&cpu, &["svc.slice", "job1"], true),
        ],
        vec![
            under(&mem, &["svc.slice"], true),
            under(&mem, &["svc.slice", "job1"], true),
        ],
    ];
    let mut found = e.collect_v1(&root(), &s(&["cpu", "memory"]), &walks);
    found.sort();
    assert_eq!(found, s(&["svc.slice", "svc.slice/job1"]));
    let jobs = found.iter().filter(|p| p.as_str() == "svc.slice/job1").count();
    assert_eq!(jobs, 1);
}

#[test]
fn v1_merges_distinct_paths() {
    let e = Explorer::v1().include_globs(s(&["*/job*"])).build().unwrap();
    let cpu = s(&["sys", "fs", "cgroup", "cpu"]);
    let mem = s(&["sys", "fs", "cgroup", "memory"]);
    let walks = vec![
        vec![under(&cpu, &[], true), under(&cpu, &["a", "job1"], true)],
        vec![under(&mem, &["b", "job2"], true), under(&mem, &["b", "other"], true)],
    ];
    let mut found = e.collect_v1(&root(), &s(&["cpu", "memory"]), &walks);
    found.sort();
    assert_eq!(found, s(&["a/job1", "b/job2"]));
}

#[test]
fn v1_failed_controller_contributes_nothing() {
    let e = Explorer::v1().build().unwrap();
    let cpu = s(&["sys", "fs", "cgroup", "cpu"]);
    let mem = s(&["sys", "fs", "cgroup", "memory"]);
    let walks = vec![
        vec![under(&cpu, &["a"], true), WalkItem::Failed, under(&cpu, &["b"], true)],
        vec![under(&mem, &["c"], true)],
    ];
    let found = e.collect_v1(&root(), &s(&["cpu", "memory"]), &walks);
    assert_eq!(found, s(&["c"]));
}

#[test]
fn root_is_never_yielded() {
    let e = Explorer::v2().include_globs(s(&["*"])).build().unwrap();
    assert_eq!(e.v2_step(&root(), &dir(&[])), V2Step::Skip);
    let all = Explorer::v2().build().unwrap();
    assert_eq!(all.v2_step(&root(), &dir(&[])), V2Step::Skip);
}

#[test]
fn regular_file_is_never_yielded() {
    let e = Explorer::v2().build().unwrap();
    assert_eq!(e.v2_step(&root(), &file(&["README"])), V2Step::Skip);
    let g = Explorer::v2().include_globs(s(&["README"])).build().unwrap();
    assert_eq!(g.v2_step(&root(), &file(&["README"])), V2Step::Skip);
    assert_eq!(g.v2_step(&root(), &dir(&["README"])), V2Step::Yield("README".to_string()));
}

#[test]
fn malformed_glob_fails_at_build() {
    let r = Explorer::v2().include_globs(s(&["a/*", "[unterminated", "[also"])).build();
    match r {
        Err(ExplorerBuilderError::ValidationError { pattern, message }) => {
            assert_eq!(pattern, "[unterminated");
            assert!(!message.is_empty());
        }
        Ok(_) => panic!("malformed glob accepted"),
    }
}

#[test]
fn malformed_regex_fails_at_build() {
    let r = Explorer::v2().include_regex(s(&["^ok$", "(open"])).build();
    match r {
        Err(ExplorerBuilderError::ValidationError { pattern, message }) => {
            assert_eq!(pattern, "(open");
            assert!(!message.is_empty());
        }
        Ok(_) => panic!("malformed regex accepted"),
    }
}

#[test]
fn glob_is_reported_before_regex() {
    let r = Explorer::v1()
        .include_globs(s(&["[bad"]))
        .include_regex(s(&["(bad"]))
        .build();
    match r {
        Err(ExplorerBuilderError::ValidationError { pattern, .. }) => {
            assert_eq!(pattern, "[bad");
        }
        Ok(_) => panic!("malformed patterns accepted"),
    }
}

#[test]
fn v2_order_is_stable() {
    let e = Explorer::v2().include_globs(s(&["?"])).build().unwrap();
    let first = e.collect_v2(&root(), &tree_abx());
    let second = e.collect_v2(&root(), &tree_abx());
    assert_eq!(first, second);
    assert_eq!(first, s(&["a", "x"]));
}

#[test]
fn scenario_without_filter() {
    let e = Explorer::v2().build().unwrap();
    let found = e.collect_v2(&root(), &scenario_tree());
    assert_eq!(found, s(&["user.slice", "user.slice/app-1.scope"]));
}

#[test]
fn scenario_with_glob() {
    let e = Explorer::v2().include_globs(s(&["user.slice/*"])).build().unwrap();
    let found = e.collect_v2(&root(), &scenario_tree());
    assert_eq!(found, s(&["user.slice/app-1.scope"]));
}

#[test]
fn v2_stops_at_walk_failure() {
    let e = Explorer::v2().build().unwrap();
    let items = vec![dir(&["a"]), WalkItem::Failed, dir(&["b"])];
    assert_eq!(e.collect_v2(&root(), &items), s(&["a"]));
    assert_eq!(e.v2_step(&root(), &WalkItem::Failed), V2Step::Stop);
}

#[test]
fn regex_filter_selects_created_group() {
    let e = Explorer::v2()
        .include_regex(s(&["^test_.*?_explorer[0-9]$"]))
        .build()
        .unwrap();
    let items = vec![
        dir(&["test_cgroup_explorer"]),
        dir(&["test_cgroup_explorer2"]),
        dir(&["user.slice"]),
    ];
    assert_eq!(e.collect_v2(&root(), &items), s(&["test_cgroup_explorer2"]));
}

#[test]
fn globs_and_regexes_are_pooled() {
    let e = Explorer::v2()
        .include_globs(s(&["a/*"]))
        .include_regex(s(&["^x"]))
        .build()
        .unwrap();
    assert_eq!(e.collect_v2(&root(), &tree_abx()), s(&["a/b", "a/c", "x", "x/y"]));
    assert!(e.accepts("x"));
    assert!(e.accepts("a/b"));
    assert!(!e.accepts("a"));
}

#[test]
fn empty_globs_with_regex_use_regex_only() {
    let e = Explorer::v2().include_regex(s(&["^x/"])).build().unwrap();
    assert_eq!(e.collect_v2(&root(), &tree_abx()), s(&["x/y"]));
}

#[test]
fn relative_path_is_joined_with_slashes() {
    let e = Explorer::v2().build().unwrap();
    let item = dir(&["user.slice", "app-1.scope", "inner"]);
    assert_eq!(
        e.accepted_path(&root(), &item),
        Some("user.slice/app-1.scope/inner".to_string())
    );
}

#[test]
fn entry_outside_base_is_skipped() {
    let e = Explorer::v2().build().unwrap();
    let item = WalkItem::Entry { path: s(&["other", "place"]), is_dir: true };
    assert_eq!(e.v2_step(&root(), &item), V2Step::Skip);
}

#[test]
fn builders_keep_generation() {
    assert_eq!(Explorer::v1().build().unwrap().generation(), Generation::V1);
    assert_eq!(Explorer::v2().build().unwrap().generation(), Generation::V2);
}

#[test]
fn strip_and_subtree_paths() {
    assert_eq!(strip_base(&s(&["a"]), &s(&["a", "b", "c"])), Some(s(&["b", "c"])));
    assert_eq!(strip_base(&s(&["a", "b"]), &s(&["a", "b"])), Some(Vec::new()));
    assert_eq!(strip_base(&s(&["a", "x"]), &s(&["a", "b"])), None);
    assert_eq!(strip_base(&s(&["a", "b", "c"]), &s(&["a"])), None);
    assert_eq!(subtree_root(&s(&["sys", "fs"]), &"cpu".to_string()), s(&["sys", "fs", "cpu"]));
}

#[test]
fn unified_mode_selects_generation() {
    let v2 = Explorer::for_unified_mode(true).build().unwrap();
    assert_eq!(v2.generation(), Generation::V2);
    let v1 = Explorer::for_unified_mode(false).build().unwrap();
    assert_eq!(v1.generation(), Generation::V1);
}

#[test]
fn components_join_with_slashes() {
    assert_eq!(join_components(&s(&["a", "b", "c"])), "a/b/c");
    assert_eq!(join_components(&s(&["only"])), "only");
    assert_eq!(join_components(&Vec::new()), "");
}
