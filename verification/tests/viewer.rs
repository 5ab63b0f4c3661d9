use spacegraph::collections::VecMap;
use spacegraph::labels::{node_label_long, node_label_short, normalize_display_path, stable_u32};
use spacegraph::settings::{sanitize_path_entry, sanitize_paths};
use spacegraph::text::{join_texts, lowest_by_text, replace_char, same_text, sort_by_text, sorted_unique};
use spacegraph::path_policy::lies_under;
use spacegraph::tree::{first_root, ordered_roots, parent_path, sort_children_by_path};
use spacegraph::viewer_config::{
    build_agent_command, default_agents, default_uds_path, AgentEndpoint, AgentEndpointKind,
    AgentMode, LodEdgesMode, PathPolicyConfig, ViewerViewMode,
};
use spacegraph::wire::{FileKind, Node, NodeId};

fn s(x: &str) -> String {
    x.to_string()
}

#[test]
fn parent_path_derivation() {
    assert_eq!(parent_path("/home/user/report.txt"), Some("/home/user".to_string()));
    assert_eq!(parent_path("/home"), Some("/".to_string()));
    assert_eq!(parent_path("/"), None);
}

#[test]
fn children_sorted_lexicographically() {
    let a = NodeId("a".to_string());
    let b = NodeId("b".to_string());
    let c = NodeId("c".to_string());
    let mut paths = VecMap::new();
    paths.insert(a.clone(), "/root/a".to_string());
    paths.insert(b.clone(), "/root/b".to_string());
    paths.insert(c.clone(), "/root/c".to_string());
    let mut children = vec![b.clone(), c.clone(), a.clone()];

    sort_children_by_path(&mut children, &paths);

    assert_eq!(children, vec![a, b, c]);
}

#[test]
fn children_with_the_same_path_sort_by_id_and_pathless_first() {
    let id = |x: &str| NodeId(x.to_string());
    let mut paths = VecMap::new();
    paths.insert(id("z"), s("/a"));
    paths.insert(id("y"), s("/a"));
    paths.insert(id("x"), s("/a/b"));
    paths.insert(id("w"), s("/A"));
    let mut children = vec![id("x"), id("z"), id("nopath"), id("y"), id("w")];
    sort_children_by_path(&mut children, &paths);
    assert_eq!(children, vec![id("nopath"), id("w"), id("y"), id("z"), id("x")]);
}

#[test]
fn sanitize_paths_trims_normalizes_and_dedups() {
    let input = vec![
        " /etc ".to_string(),
        "/home".to_string(),
        "/home".to_string(),
        "\\var\\log".to_string(),
        "  ".to_string(),
    ];

    let cleaned = sanitize_paths(&input);

    assert_eq!(cleaned, vec!["/etc", "/home", "/var/log"]);
}

#[test]
fn sanitize_path_entry_rejects_empty() {
    assert!(sanitize_path_entry("   ").is_none());
    assert!(sanitize_path_entry("").is_none());
}

#[test]
fn sanitize_path_entry_trims_and_turns_backslashes() {
    assert_eq!(sanitize_path_entry("\t C:\\x\\y \n"), Some(s("C:/x/y")));
    assert_eq!(sanitize_path_entry("/a b"), Some(s("/a b")));
    assert_eq!(sanitize_path_entry("\u{a0}\u{3000}"), None);
}

#[test]
fn build_agent_command_includes_mode_and_paths() {
    let agent = AgentEndpoint {
        name: "local".to_string(),
        kind: AgentEndpointKind::UdsPath("/tmp/spacegraph.sock".to_string()),
        auto_connect: false,
        mode_override: None,
    };
    let policy = PathPolicyConfig {
        includes: vec!["/var".to_string(), "/etc".to_string()],
        excludes: vec!["/sys".to_string(), "/proc".to_string()],
    };

    let cmd = build_agent_command(&agent, &policy, AgentMode::Privileged);

    assert_eq!(
        cmd,
        "spacegraph-agent --mode privileged --include /etc --include /var --exclude /proc --exclude /sys"
    );
}

#[test]
fn agent_command_lists_each_path_once() {
    let agent = default_agents(None).remove(0);
    let policy = PathPolicyConfig {
        includes: vec![s("/b"), s("/a"), s("/b"), s("/a")],
        excludes: vec![],
    };
    assert_eq!(
        build_agent_command(&agent, &policy, AgentMode::User),
        "spacegraph-agent --mode user --include /a --include /b"
    );
    let none = PathPolicyConfig { includes: vec![], excludes: vec![] };
    assert_eq!(build_agent_command(&agent, &none, AgentMode::User), "spacegraph-agent --mode user");
}

#[test]
fn viewer_defaults() {
    assert_eq!(ViewerViewMode::default(), ViewerViewMode::Spatial);
    assert_eq!(LodEdgesMode::default(), LodEdgesMode::FocusOnly);
    assert_eq!(AgentMode::default(), AgentMode::User);
    assert_eq!(AgentMode::User.as_str(), "user");
    assert_eq!(AgentMode::Privileged.as_str(), "privileged");
    assert_eq!(default_uds_path(None), "/tmp/spacegraph.sock");
    assert_eq!(default_uds_path(Some("/run/user/1000")), "/run/user/1000/spacegraph.sock");
    assert_eq!(
        default_agents(Some("/run/u")),
        vec![AgentEndpoint {
            name: s("local"),
            kind: AgentEndpointKind::UdsPath(s("/run/u/spacegraph.sock")),
            auto_connect: true,
            mode_override: None,
        }]
    );
}

#[test]
fn roots_are_ordered_and_unique() {
    assert_eq!(ordered_roots(&vec![]), vec![s("/")]);
    assert_eq!(ordered_roots(&vec![s("/var"), s("/etc"), s("/var"), s("/etc")]), vec![s("/var"), s("/etc")]);
}

#[test]
fn a_file_is_shown_under_the_first_root_that_holds_it() {
    let roots = vec![s("/var"), s("/var/log"), s("/etc")];
    assert_eq!(first_root("/var/log/a.log", &roots), Some(0));
    assert_eq!(first_root("/etc/passwd", &roots), Some(2));
    assert_eq!(first_root("/etc", &roots), Some(2));
    assert_eq!(first_root("/variable", &roots), None);
    assert_eq!(first_root("/home/u", &roots), None);
    assert_eq!(first_root("/x", &vec![]), None);
    assert_eq!(first_root("/x", &vec![s("/")]), Some(0));
    assert!(lies_under("/a/b/c", "/a/b") && !lies_under("/a/bc", "/a/b"));
}

#[test]
fn parent_of_relative_and_nested_paths() {
    assert_eq!(parent_path("a/b"), Some(s("a")));
    assert_eq!(parent_path("a"), Some(s("")));
    assert_eq!(parent_path(""), None);
    assert_eq!(parent_path("/a/b/"), Some(s("/a")));
}

#[test]
fn display_paths_are_tidied() {
    assert_eq!(normalize_display_path("/var//log/./a.log"), "/var/log/a.log");
    assert_eq!(normalize_display_path("/a/b/../c"), "/a/c");
    assert_eq!(normalize_display_path("/../.."), "/");
    assert_eq!(normalize_display_path(""), "/");
    assert_eq!(normalize_display_path("rel/path/"), "/rel/path");
    assert_eq!(normalize_display_path("/a/./././b"), "/a/b");
    assert_eq!(normalize_display_path("/a/.../b"), "/a/.../b");
}

#[test]
fn node_labels() {
    let p = Node::Process { pid: 42, ppid: -1, exe: s("/usr//bin/x"), cmdline: s("x --y"), uid: 1000 };
    assert_eq!(node_label_short(&p), "x --y");
    assert_eq!(
        node_label_long(&p),
        vec![s("kind: process"), s("pid: 42 ppid: -1 uid: 1000"), s("exe: /usr/bin/x"), s("cmd: x --y")]
    );
    let q = Node::Process { pid: 1, ppid: 0, exe: s("/sbin/./init"), cmdline: s(""), uid: 0 };
    assert_eq!(node_label_short(&q), "/sbin/init");
    let f = Node::File { path: s("/etc/../etc/passwd"), inode: 18446744073709551615, kind: FileKind::Socket };
    assert_eq!(node_label_short(&f), "/etc/passwd");
    assert_eq!(
        node_label_long(&f),
        vec![s("kind: file"), s("path: /etc/passwd"), s("inode: 18446744073709551615"), s("filekind: Socket")]
    );
    let u = Node::User { uid: 0, name: s("root") };
    assert_eq!(node_label_short(&u), "root");
    assert_eq!(node_label_long(&u), vec![s("kind: user"), s("uid: 0 name: root")]);
    for (kind, name) in [
        (FileKind::Regular, "Regular"),
        (FileKind::Dir, "Dir"),
        (FileKind::Pipe, "Pipe"),
        (FileKind::Device, "Device"),
        (FileKind::Unknown, "Unknown"),
    ] {
        let n = Node::File { path: s("/"), inode: 0, kind };
        assert_eq!(node_label_long(&n)[3], format!("filekind: {name}"));
    }
}

#[test]
fn stable_u32_is_the_low_half_of_the_default_hash() {
    use_hash_check("n:file:/etc/passwd");
    use_hash_check("");
    assert_ne!(stable_u32("a"), stable_u32("b"));
    assert_eq!(stable_u32("a"), stable_u32("a"));
}

fn use_hash_check(text: &str) {
    let mut h = std::collections::hash_map::DefaultHasher::new();
    std::hash::Hash::hash(text, &mut h);
    let full = std::hash::Hasher::finish(&h);
    assert_eq!(stable_u32(text) as u64, full & 0xFFFF_FFFF);
}

#[test]
fn texts_sort_by_code_point() {
    let mut v = vec![s("b"), s("a"), s("B"), s("ab"), s(""), s("é"), s("a")];
    sort_by_text(&mut v);
    assert_eq!(v, vec![s(""), s("B"), s("a"), s("a"), s("ab"), s("b"), s("é")]);
    assert_eq!(sorted_unique(&vec![s("b"), s("a"), s("b")]), vec![s("a"), s("b")]);
    assert_eq!(lowest_by_text(vec![s("c"), s("a"), s("b")], 2), vec![s("a"), s("b")]);
    assert_eq!(lowest_by_text(vec![s("c"), s("a")], 5), vec![s("a"), s("c")]);
    assert_eq!(join_texts(&vec![s("a"), s(""), s("b")], ", "), "a, , b");
    assert_eq!(join_texts(&vec![], ", "), "");
    assert_eq!(replace_char("a\\b\\", '\\', '/'), "a/b/");
    assert!(same_text("x", "x") && !same_text("x", "X") && !same_text("x", "xy"));
}
