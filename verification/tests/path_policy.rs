use spacegraph::path_policy::{normalize_exclude_path, normalize_path, starts_at_root, PathPolicy};

fn s(x: &str) -> String {
    x.to_string()
}

fn temp_root(name: &str) -> String {
    format!("/tmp/spacegraph-path-policy-{name}-4242")
}

#[test]
fn excludes_override_includes() {
    let root = temp_root("override");
    let included = format!("{root}/included");
    let exclude = format!("{included}/blocked");
    let target = format!("{exclude}/file.txt");

    let mut policy = PathPolicy::new(vec![included], vec![exclude.clone()]);
    policy.normalize(&vec![None], &vec![None]);

    assert!(!policy.should_watch(&target));
}

#[test]
fn default_includes_empty_means_all_except_excludes() {
    let root = temp_root("default");
    let excluded = format!("{root}/skip");
    let allowed = format!("{root}/keep");

    let mut policy = PathPolicy::new(Vec::new(), vec![excluded.clone()]);
    policy.normalize(&vec![], &vec![None]);

    assert!(policy.should_watch(&allowed));
    assert!(!policy.should_watch(&format!("{excluded}/child")));
}

#[test]
fn prefix_matching_works() {
    let root = temp_root("prefix");
    let included = format!("{root}/root");
    let included_child = format!("{included}/child");
    let excluded_child = format!("{root}/other");

    let mut policy = PathPolicy::new(vec![included], Vec::new());
    policy.normalize(&vec![None], &vec![]);

    assert!(policy.should_watch(&included_child));
    assert!(!policy.should_watch(&excluded_child));
}

#[test]
fn canonicalize_best_effort_keeps_nonexistent_paths() {
    let included = s("/nonexistent-spacegraph-path-policy");
    let candidate = format!("{included}/child");

    let mut policy = PathPolicy::new(vec![included], Vec::new());
    policy.normalize(&vec![None], &vec![]);

    assert!(policy.should_watch(&candidate));
}

#[test]
fn relative_excludes_match_by_component() {
    let root = temp_root("relative");
    let excluded = format!("{root}/node_modules");
    let target = format!("{excluded}/file.txt");

    let mut policy = PathPolicy::new(Vec::new(), vec![s("node_modules")]);
    policy.normalize(&vec![], &vec![None]);

    assert!(!policy.should_watch(&target));
}

#[test]
fn prefix_is_by_component_not_by_text() {
    let policy = PathPolicy::new(vec![s("/etc")], vec![]);
    assert!(policy.is_included("/etc"));
    assert!(policy.is_included("/etc/passwd"));
    assert!(policy.is_included("/etc//ssh/./config"));
    assert!(!policy.is_included("/etcetera"));
    assert!(!policy.is_included("etc/passwd"));
}

#[test]
fn relative_exclude_matches_whole_components_only() {
    let policy = PathPolicy::new(vec![], vec![s("cache")]);
    assert!(policy.is_excluded("/home/u/cache/x"));
    assert!(policy.is_excluded("cache"));
    assert!(policy.is_excluded("/cache"));
    assert!(!policy.is_excluded("/home/u/.cache/x"));
    assert!(!policy.is_excluded("/home/u/cache2"));
}

#[test]
fn normalize_applies_canonical_forms_by_position() {
    let mut policy = PathPolicy::new(
        vec![s("/link"), s("/plain")],
        vec![s("/tmp-link"), s("node_modules"), s("/gone")],
    );
    policy.normalize(
        &vec![Some(s("/real")), None],
        &vec![Some(s("/private/tmp")), Some(s("/should/not/apply"))],
    );
    assert_eq!(policy.includes(), &vec![s("/real"), s("/plain")]);
    assert_eq!(policy.excludes(), &vec![s("/private/tmp"), s("node_modules"), s("/gone")]);
}

#[test]
fn should_watch_is_stable_under_repeated_normalization() {
    let mut policy = PathPolicy::new(vec![s("/link")], vec![s("/link/skip"), s("tmp")]);
    policy.normalize(&vec![Some(s("/real"))], &vec![Some(s("/real/skip")), None]);
    let once = policy.clone();
    policy.normalize(&vec![Some(s("/real"))], &vec![Some(s("/real/skip")), None]);
    assert_eq!(policy, once);
    for p in ["/real/a", "/real/skip/a", "/real/tmp/x", "/other"] {
        assert_eq!(policy.should_watch(p), once.should_watch(p));
    }
    assert!(policy.should_watch("/real/a"));
    assert!(!policy.should_watch("/real/skip/a"));
    assert!(!policy.should_watch("/real/tmp/x"));
    assert!(!policy.should_watch("/other"));
}

#[test]
fn unresolved_paths_stay_and_relative_excludes_are_never_resolved() {
    assert_eq!(normalize_path("/nowhere", None), "/nowhere");
    assert_eq!(normalize_path("/link", Some(s("/target"))), "/target");
    assert_eq!(normalize_exclude_path("/link", Some(s("/target"))), "/target");
    assert_eq!(normalize_exclude_path("rel", Some(s("/cwd/rel"))), "rel");
    assert_eq!(normalize_exclude_path("/nowhere", None), "/nowhere");
    assert!(starts_at_root("/x"));
    assert!(!starts_at_root("x/"));
    assert!(!starts_at_root(""));
}
