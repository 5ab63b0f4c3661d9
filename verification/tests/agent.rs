use spacegraph::collections::VecMap;
use spacegraph::path_policy::PathPolicy;
use spacegraph::procfs_text::{
    fd_mode_from_flags, file_kind_from_path, parse_fd_flags, parse_i64, parse_passwd, parse_u32,
};
use spacegraph::server::{
    capabilities, default_node_id, greeting, hello, identity_msg, runtime_sock_path,
    snapshot_node_events, stream_step, BusEvent, StreamStep, BUS_CAPACITY, WATCHER_QUEUE_CAPACITY,
};
use spacegraph::snapshot::{
    build_snapshot, collect_process_detail, should_keep_path, wants_passwd, FdRecord, ProcessRecord,
};
use spacegraph::watch_proc::{
    batch_due, diff_pids, passwd_refresh_due, proc_batch, Arrival, FIRST_BATCH_ID, POLL_PERIOD_MS,
};
use spacegraph::wire::{Delta, Edge, EdgeKind, FileKind, Msg, Node, NodeId};

fn s(x: &str) -> String {
    x.to_string()
}

fn id(x: &str) -> NodeId {
    NodeId(x.to_string())
}

fn users() -> VecMap<u32, String> {
    parse_passwd("root:x:0:0:root:/root:/bin/sh\nalice:x:1000:1000::/home/alice:/bin/sh\n")
}

fn record() -> ProcessRecord {
    ProcessRecord {
        pid: 13,
        ppid: 1,
        uid: Some(1000),
        exe: Some(s("/usr/bin/cat")),
        exe_inode: 77,
        cmdline: Some(vec![s("cat"), s("/etc/hosts")]),
        fds: vec![
            FdRecord { fd: 0, target: s("/dev/pts/0"), inode: 3, fdinfo: Some(s("pos:\t0\nflags:\t0100002\n")) },
            FdRecord { fd: 3, target: s("/etc/hosts"), inode: 9, fdinfo: Some(s("flags:\t0100000\n")) },
            FdRecord { fd: 4, target: s("socket:[123]"), inode: 0, fdinfo: None },
            FdRecord { fd: 5, target: s("/etc/hosts"), inode: 9, fdinfo: Some(s("flags: 1\n")) },
        ],
    }
}

#[test]
fn pid_diff_scenario() {
    let (new_pids, gone_pids) = diff_pids(&vec![10, 11, 12], &vec![11, 12, 13]);
    assert_eq!(new_pids, vec![13]);
    assert_eq!(gone_pids, vec![10]);
    assert!(batch_due(&new_pids, &gone_pids));
    let detail = collect_process_detail("h", &users(), &record());
    assert!(detail.is_some());
    let arrivals = vec![Arrival { pid: 13, detail }];
    let msgs = proc_batch("h", FIRST_BATCH_ID, &arrivals, &gone_pids);
    assert_eq!(msgs.first(), Some(&Msg::Event { delta: Delta::BatchBegin { id: 1 } }));
    assert_eq!(msgs.last(), Some(&Msg::Event { delta: Delta::BatchEnd { id: 1 } }));
    assert!(matches!(
        &msgs[1],
        Msg::Event { delta: Delta::UpsertNode { id: i, node: Node::Process { pid: 13, .. } } }
            if *i == id("h:process:pid:13")
    ));
    assert_eq!(
        msgs[msgs.len() - 2],
        Msg::Event { delta: Delta::RemoveNode { id: id("h:process:pid:10") } }
    );
    assert_eq!(msgs.len(), 2 + 6 + 6 + 1);
}

#[test]
fn pid_diff_ignores_order_and_repeats() {
    assert_eq!(diff_pids(&vec![], &vec![3, 1, 3]), (vec![3, 1], vec![]));
    assert_eq!(diff_pids(&vec![5, 5, 6], &vec![6]), (vec![], vec![5]));
    let (n, g) = diff_pids(&vec![1, 2], &vec![2, 1]);
    assert!(n.is_empty() && g.is_empty());
    assert!(!batch_due(&n, &g));
    assert_eq!(POLL_PERIOD_MS, 750);
    assert!(passwd_refresh_due(80) && passwd_refresh_due(160) && passwd_refresh_due(0));
    assert_eq!((0..=400u64).filter(|t| passwd_refresh_due(*t)).count(), 6);
    assert!(!passwd_refresh_due(1) && !passwd_refresh_due(79));
}

#[test]
fn a_process_without_detail_gets_a_placeholder() {
    let msgs = proc_batch("h", 9, &vec![Arrival { pid: 4, detail: None }], &vec![]);
    assert_eq!(
        msgs,
        vec![
            Msg::Event { delta: Delta::BatchBegin { id: 9 } },
            Msg::Event {
                delta: Delta::UpsertNode {
                    id: id("h:process:pid:4"),
                    node: Node::Process { pid: 4, ppid: 0, exe: s("<unknown>"), cmdline: s("<new>"), uid: 0 },
                },
            },
            Msg::Event { delta: Delta::BatchEnd { id: 9 } },
        ]
    );
}

#[test]
fn process_detail_lists_nodes_and_edges_once() {
    let (nodes, edges) = collect_process_detail("h", &users(), &record()).unwrap();
    assert_eq!(
        nodes,
        vec![
            (
                id("h:process:pid:13"),
                Node::Process { pid: 13, ppid: 1, exe: s("/usr/bin/cat"), cmdline: s("cat /etc/hosts"), uid: 1000 }
            ),
            (id("h:user:1000"), Node::User { uid: 1000, name: s("alice") }),
            (
                id("h:file:/usr/bin/cat"),
                Node::File { path: s("/usr/bin/cat"), inode: 77, kind: FileKind::Unknown }
            ),
            (
                id("h:file:/dev/pts/0"),
                Node::File { path: s("/dev/pts/0"), inode: 3, kind: FileKind::Device }
            ),
            (id("h:file:/etc/hosts"), Node::File { path: s("/etc/hosts"), inode: 9, kind: FileKind::Unknown }),
            (
                id("h:file:socket:[123]"),
                Node::File { path: s("socket:[123]"), inode: 0, kind: FileKind::Socket }
            ),
        ]
    );
    let p = id("h:process:pid:13");
    let e = |to: &str, kind: EdgeKind| Edge { from: p.clone(), to: id(to), kind };
    let opens = |fd: i32, mode: &str| EdgeKind::Opens { fd, mode: s(mode) };
    assert_eq!(
        edges,
        vec![
            e("h:user:1000", EdgeKind::RunsAs),
            e("h:file:/usr/bin/cat", EdgeKind::Execs),
            e("h:file:/dev/pts/0", opens(0, "rw")),
            e("h:file:/etc/hosts", opens(3, "r")),
            e("h:file:socket:[123]", opens(4, "?")),
            e("h:file:/etc/hosts", opens(5, "w")),
        ]
    );
}

#[test]
fn a_process_that_was_not_read_in_full_is_passed_over() {
    let whole = ProcessRecord {
        pid: 2,
        ppid: 0,
        uid: Some(0),
        exe: Some(s("/sbin/init")),
        exe_inode: 5,
        cmdline: Some(vec![]),
        fds: vec![],
    };
    let (nodes, edges) = collect_process_detail("h", &VecMap::new(), &whole).unwrap();
    assert_eq!(
        nodes,
        vec![
            (
                id("h:process:pid:2"),
                Node::Process { pid: 2, ppid: 0, exe: s("/sbin/init"), cmdline: s(""), uid: 0 }
            ),
            (id("h:user:0"), Node::User { uid: 0, name: s("uid0") }),
            (id("h:file:/sbin/init"), Node::File { path: s("/sbin/init"), inode: 5, kind: FileKind::Unknown }),
        ]
    );
    assert_eq!(edges.len(), 2);
    let no_uid = ProcessRecord { uid: None, ..record() };
    let no_exe = ProcessRecord { exe: None, ..record() };
    let no_cmdline = ProcessRecord { cmdline: None, ..record() };
    for rec in [&no_uid, &no_exe, &no_cmdline] {
        assert_eq!(collect_process_detail("h", &users(), rec), None);
    }
    let policy = PathPolicy::new(vec![], vec![]);
    let (nodes, edges) = build_snapshot("h", &policy, &users(), &vec![no_uid, no_exe, whole, no_cmdline]);
    let ids: Vec<&str> = nodes.iter().map(|(i, _)| i.0.as_str()).collect();
    assert_eq!(ids, vec!["h:process:pid:2", "h:user:0", "h:file:/sbin/init"]);
    assert_eq!(edges.len(), 2);
}

#[test]
fn of_two_processes_with_one_id_the_first_stays() {
    let policy = PathPolicy::new(vec![], vec![]);
    let mut later = record();
    later.ppid = 99;
    later.fds.clear();
    let (nodes, _) = build_snapshot("h", &policy, &users(), &vec![record(), later]);
    assert_eq!(
        nodes[0],
        (
            id("h:process:pid:13"),
            Node::Process { pid: 13, ppid: 1, exe: s("/usr/bin/cat"), cmdline: s("cat /etc/hosts"), uid: 1000 }
        )
    );
    assert_eq!(nodes.iter().filter(|(i, _)| *i == id("h:process:pid:13")).count(), 1);
}

#[test]
fn snapshot_applies_the_policy_and_merges_processes() {
    let policy = PathPolicy::new(vec![s("/etc"), s("/usr")], vec![s("/dev")]);
    let mut second = record();
    second.pid = 14;
    second.uid = Some(0);
    second.exe_inode = 1;
    second.fds.truncate(1);
    let (nodes, edges) = build_snapshot("h", &policy, &users(), &vec![record(), second, record()]);
    let ids: Vec<&str> = nodes.iter().map(|(i, _)| i.0.as_str()).collect();
    assert_eq!(
        ids,
        vec![
            "h:process:pid:13",
            "h:user:1000",
            "h:file:/usr/bin/cat",
            "h:file:/etc/hosts",
            "h:file:socket:[123]",
            "h:process:pid:14",
            "h:user:0",
        ]
    );
    assert_eq!(nodes[2].1, Node::File { path: s("/usr/bin/cat"), inode: 77, kind: FileKind::Unknown });
    assert_eq!(nodes[6].1, Node::User { uid: 0, name: s("root") });
    assert_eq!(edges.len(), 5 + 2);
    assert!(!edges.iter().any(|e| e.to == id("h:file:/dev/pts/0")));
    assert!(should_keep_path(&policy, "pipe:[9]"));
    assert!(should_keep_path(&policy, "/etc/x"));
    assert!(!should_keep_path(&policy, "/home/x"));
    assert!(!should_keep_path(&policy, "/dev/null"));
    assert!(wants_passwd(&policy));
    assert!(!wants_passwd(&PathPolicy::new(vec![s("/var")], vec![])));
    assert!(!wants_passwd(&PathPolicy::new(vec![], vec![s("/etc")])));
}

#[test]
fn passwd_lines() {
    let text = "# comment\n\nroot:x:0:0:root:/root:/bin/sh\r\nbad:x\nnouid:x:abc:1\n  \nbob:x:+7:7\nneg:x:-1:0\nbig:x:4294967296:0\nmax:x:4294967295:0\nroot2:x:0:0\n : :12";
    let users = parse_passwd(text);
    let mut got: Vec<(u32, String)> =
        (0..users.len()).map(|i| (*users.key_at(i), users.val_at(i).clone())).collect();
    got.sort();
    assert_eq!(got, vec![(0, s("root2")), (7, s("bob")), (12, s(" ")), (4294967295, s("max"))]);
    assert_eq!(parse_passwd("").len(), 0);
}

#[test]
fn numbers() {
    assert_eq!(parse_u32("0"), Some(0));
    assert_eq!(parse_u32("0042"), Some(42));
    assert_eq!(parse_u32("+5"), Some(5));
    assert_eq!(parse_u32("-5"), None);
    assert_eq!(parse_u32(""), None);
    assert_eq!(parse_u32("+"), None);
    assert_eq!(parse_u32("1 "), None);
    assert_eq!(parse_u32("4294967295"), Some(u32::MAX));
    assert_eq!(parse_u32("4294967296"), None);
    assert_eq!(parse_u32("99999999999999999999999999"), None);
    assert_eq!(parse_i64("-9223372036854775808", 10), Some(i64::MIN));
    assert_eq!(parse_i64("9223372036854775807", 10), Some(i64::MAX));
    assert_eq!(parse_i64("9223372036854775808", 10), None);
    assert_eq!(parse_i64("-9223372036854775809", 10), None);
    assert_eq!(parse_i64("777", 8), Some(511));
    assert_eq!(parse_i64("-10", 8), Some(-8));
    assert_eq!(parse_i64("8", 8), None);
    assert_eq!(parse_i64("-", 10), None);
    assert_eq!(parse_i64("1x", 10), None);
}

#[test]
fn fd_flags_and_modes() {
    assert_eq!(parse_fd_flags("pos:\t0\nflags:\t0100002\nmnt_id:\t25\n"), Some(0o100002));
    assert_eq!(parse_fd_flags("flags: 32769"), Some(32769));
    assert_eq!(parse_fd_flags("flags:\t02\nflags:\t01\n"), Some(2));
    assert_eq!(parse_fd_flags("flags:\t0\n"), None);
    assert_eq!(parse_fd_flags("flags:\t08\n"), None);
    assert_eq!(parse_fd_flags("flags:\n"), None);
    assert_eq!(parse_fd_flags(" flags: 1\n"), None);
    assert_eq!(parse_fd_flags("pos: 0\n"), None);
    assert_eq!(parse_fd_flags(""), None);
    assert_eq!(fd_mode_from_flags(0o100000), "r");
    assert_eq!(fd_mode_from_flags(1), "w");
    assert_eq!(fd_mode_from_flags(0o100002), "rw");
    assert_eq!(fd_mode_from_flags(3), "?");
    assert_eq!(fd_mode_from_flags(-1), "?");
    assert_eq!(fd_mode_from_flags(-4), "r");
    assert_eq!(file_kind_from_path("socket:[1]"), FileKind::Socket);
    assert_eq!(file_kind_from_path("pipe:[1]"), FileKind::Pipe);
    assert_eq!(file_kind_from_path("/dev/null"), FileKind::Device);
    assert_eq!(file_kind_from_path("/dev"), FileKind::Unknown);
    assert_eq!(file_kind_from_path("/etc/socket:"), FileKind::Unknown);
}

#[test]
fn greeting_order() {
    let identity = identity_msg("n1", "host", "linux", "x86_64");
    let nodes = vec![
        (id("a"), Node::User { uid: 1, name: s("a") }),
        (id("b"), Node::User { uid: 2, name: s("b") }),
    ];
    let snapshot = Msg::Snapshot { nodes: nodes.clone(), edges: vec![] };
    let backlog = snapshot_node_events(&nodes);
    assert_eq!(
        backlog,
        vec![
            Msg::Event { delta: Delta::UpsertNode { id: id("a"), node: nodes[0].1.clone() } },
            Msg::Event { delta: Delta::UpsertNode { id: id("b"), node: nodes[1].1.clone() } },
        ]
    );
    let msgs = greeting(&identity, &snapshot, &backlog);
    assert_eq!(msgs.len(), 5);
    assert_eq!(msgs[0], Msg::Hello { version: s("0.1.0") });
    assert_eq!(msgs[0], hello());
    assert_eq!(msgs[1], identity);
    assert_eq!(msgs[2], snapshot);
    assert_eq!(&msgs[3..], &backlog[..]);
    assert!(matches!(&identity, Msg::Identity { ident, caps }
        if ident.node_id == "n1" && ident.hostname == "host" && ident.platform == "linux"
            && ident.arch == "x86_64" && *caps == capabilities()));
    assert!(capabilities().procfs && capabilities().fd_edges && !capabilities().ebpf);
    assert_eq!(BUS_CAPACITY, 32_768);
    assert_eq!(WATCHER_QUEUE_CAPACITY, 8_192);
}

#[test]
fn socket_path_and_node_name() {
    assert_eq!(runtime_sock_path(Some("/run/user/7")), "/run/user/7/spacegraph.sock");
    assert_eq!(runtime_sock_path(None), "/tmp/spacegraph.sock");
    assert_eq!(default_node_id(Some("lab"), Some("host")), "lab");
    assert_eq!(default_node_id(Some(" lab "), Some("host")), " lab ");
    assert_eq!(default_node_id(Some("  "), Some("host")), "host");
    assert_eq!(default_node_id(None, Some("host")), "host");
    assert_eq!(default_node_id(Some(""), None), "node");
    assert_eq!(default_node_id(None, None), "node");
}

#[test]
fn stream_steps() {
    assert!(matches!(stream_step(BusEvent::Message(Msg::Ping)), StreamStep::Send(Msg::Ping)));
    assert!(matches!(stream_step(BusEvent::Lagged), StreamStep::Continue));
    assert!(matches!(stream_step(BusEvent::Closed), StreamStep::End));
}
