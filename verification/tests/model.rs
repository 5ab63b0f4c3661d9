use spacegraph::model::{
    edge_class_name, edge_explain, edge_kind_name, AggEdgeKey, EdgeKindClass, GraphModel,
};
use spacegraph::wire::{Edge, EdgeKind, FileKind, Node, NodeId};

fn node_file(path: &str) -> Node {
    Node::File { path: path.to_string(), inode: 1, kind: FileKind::Regular }
}

fn id(s: &str) -> NodeId {
    NodeId(s.to_string())
}

fn edge(from: &str, to: &str, kind: EdgeKind) -> Edge {
    Edge { from: id(from), to: id(to), kind }
}

fn opens(fd: i32, mode: &str) -> EdgeKind {
    EdgeKind::Opens { fd, mode: mode.to_string() }
}

#[test]
fn adjacency_returns_edges_for_node() {
    let mut model = GraphModel::default();
    let now: u64 = 1_000_000;
    let a = id("a");
    let b = id("b");
    let c = id("c");
    model.upsert_node(a.clone(), node_file("/a"), now);
    model.upsert_node(b.clone(), node_file("/b"), now);
    model.upsert_node(c.clone(), node_file("/c"), now);

    let e1 = Edge { from: a.clone(), to: b.clone(), kind: EdgeKind::Execs };
    let e2 = Edge { from: c.clone(), to: a.clone(), kind: EdgeKind::RunsAs };
    model.upsert_edge(e1.clone(), now + 1_000);
    model.upsert_edge(e2.clone(), now + 2_000);

    let edges: Vec<Edge> = model.edges_for_node(&a);
    assert_eq!(edges.len(), 2);
    assert!(edges.contains(&e1));
    assert!(edges.contains(&e2));
}

#[test]
fn aggregation_coalesces_edges_and_counts_events() {
    let mut model = GraphModel::default();
    let now: u64 = 1_000_000;
    let a = id("a");
    let b = id("b");
    model.upsert_node(a.clone(), node_file("/a"), now);
    model.upsert_node(b.clone(), node_file("/b"), now);

    let e = Edge { from: a.clone(), to: b.clone(), kind: opens(3, "r") };
    model.upsert_edge(e.clone(), now);
    model.upsert_edge(e.clone(), now + 1_000);
    model.upsert_edge(e.clone(), now + 2_000);

    assert_eq!(model.agg_edge_count(), 1);
    let aggs = model.agg_edges();
    let agg = &aggs[0];
    assert_eq!(agg.stats.count, 3);
    assert_eq!(agg.live_count, 1);
    assert_eq!(agg.key.class, EdgeKindClass::Opens);
    assert_eq!(agg.stats.first_ts, now);
    assert_eq!(agg.stats.last_ts, now + 2_000);
    assert_eq!(model.edge_count(), 1);
}

#[test]
fn every_node_has_a_last_seen_time() {
    let mut model = GraphModel::new();
    model.upsert_node(id("a"), node_file("/a"), 10);
    model.upsert_node(id("b"), node_file("/b"), 20);
    model.upsert_node(id("a"), node_file("/a2"), 30);
    assert_eq!(model.node_count(), 2);
    assert_eq!(model.last_seen(&id("a")), Some(30));
    assert_eq!(model.last_seen(&id("b")), Some(20));
    assert_eq!(model.node(&id("a")), Some(&node_file("/a2")));
    model.load_snapshot(vec![(id("x"), node_file("/x")), (id("y"), node_file("/y"))], vec![], 99);
    for i in 0..model.node_count() {
        let (nid, _) = model.node_at(i);
        assert_eq!(model.last_seen(nid), Some(99));
    }
    assert_eq!(model.last_seen(&id("a")), None);
    assert!(!model.contains_node(&id("a")));
}

#[test]
fn edges_sit_in_the_lists_of_both_endpoints() {
    let mut model = GraphModel::new();
    for n in ["p", "f", "u"] {
        model.upsert_node(id(n), node_file(n), 1);
    }
    let e1 = edge("p", "f", opens(3, "r"));
    let e2 = edge("p", "f", opens(4, "w"));
    let e3 = edge("p", "u", EdgeKind::RunsAs);
    for e in [&e1, &e2, &e3] {
        model.upsert_edge(e.clone(), 5);
    }
    for i in 0..model.edge_count() {
        let e = model.edge_at(i).clone();
        assert!(model.contains_node(&e.from) && model.contains_node(&e.to));
        assert!(model.edges_for_node(&e.from).contains(&e));
        assert!(model.edges_for_node(&e.to).contains(&e));
    }
    assert_eq!(model.edges_for_node(&id("p")).len(), 3);
    assert_eq!(model.edges_for_node(&id("f")), vec![e1.clone(), e2.clone()]);
    assert_eq!(model.neighbors(&id("f")), vec![id("p"), id("p")]);
    assert_eq!(model.neighbors(&id("p")), vec![id("f"), id("f"), id("u")]);
    assert!(model.edges_for_node(&id("nobody")).is_empty());
}

#[test]
fn live_count_is_the_number_of_raw_edges_of_the_key() {
    let mut model = GraphModel::new();
    let e1 = edge("p", "f", opens(3, "r"));
    let e2 = edge("p", "f", opens(4, "w"));
    let e3 = edge("p", "f", EdgeKind::Execs);
    model.upsert_edge(e1.clone(), 1);
    model.upsert_edge(e2.clone(), 2);
    model.upsert_edge(e1.clone(), 3);
    model.upsert_edge(e3.clone(), 4);
    assert_eq!(model.agg_edge_count(), 2);
    let key = AggEdgeKey::new(&e1);
    let agg = model.agg_edge(&key).unwrap().clone();
    assert_eq!(agg.live_count, 2);
    assert_eq!(agg.stats.count, 3);
    assert_eq!(agg.stats.first_ts, 1);
    assert_eq!(agg.stats.last_ts, 3);
    assert_eq!(agg.last_kind, opens(3, "r"));
    for a in model.agg_edges() {
        assert!(a.live_count > 0);
        let mut n = 0;
        for i in 0..model.edge_count() {
            if AggEdgeKey::new(model.edge_at(i)) == a.key {
                n += 1;
            }
        }
        assert_eq!(a.live_count, n);
    }
    assert!(model.remove_edge(&e1));
    assert_eq!(model.agg_edge(&key).unwrap().live_count, 1);
    assert!(model.remove_edge(&e2));
    assert!(model.agg_edge(&key).is_none());
    assert_eq!(model.agg_edge_count(), 1);
}

#[test]
fn upsert_then_remove_restores_edges_and_aggregation() {
    let mut model = GraphModel::new();
    let kept = edge("p", "u", EdgeKind::RunsAs);
    model.upsert_edge(kept.clone(), 1);
    let e = edge("p", "f", opens(3, "r"));
    model.upsert_edge(e.clone(), 2);
    assert!(model.contains_edge(&e));
    assert!(model.remove_edge(&e));
    assert!(!model.contains_edge(&e));
    assert_eq!(model.edge_count(), 1);
    assert!(model.contains_edge(&kept));
    assert!(model.agg_edge(&AggEdgeKey::new(&e)).is_none());
    assert_eq!(model.agg_edge_count(), 1);
    assert!(model.edges_for_node(&id("f")).is_empty());
    assert_eq!(model.edges_for_node(&id("p")), vec![kept]);
    assert!(!model.remove_edge(&e));
}

#[test]
fn remove_node_takes_its_edges_and_is_idempotent() {
    let mut model = GraphModel::new();
    for n in ["p", "f", "u", "q"] {
        model.upsert_node(id(n), node_file(n), 1);
    }
    let e1 = edge("p", "f", opens(3, "r"));
    let e2 = edge("p", "u", EdgeKind::RunsAs);
    let e3 = edge("q", "f", opens(3, "r"));
    let e4 = edge("p", "p", EdgeKind::Execs);
    for e in [&e1, &e2, &e3, &e4] {
        model.upsert_edge(e.clone(), 2);
    }
    let mut removed = model.remove_node(&id("p"));
    removed.sort_by(|a, b| format!("{a:?}").cmp(&format!("{b:?}")));
    let mut expected = vec![e1.clone(), e2.clone(), e4.clone()];
    expected.sort_by(|a, b| format!("{a:?}").cmp(&format!("{b:?}")));
    assert_eq!(removed, expected);
    assert!(!model.contains_node(&id("p")));
    assert_eq!(model.last_seen(&id("p")), None);
    assert_eq!(model.edge_count(), 1);
    assert!(model.contains_edge(&e3));
    assert_eq!(model.agg_edge_count(), 1);
    assert!(model.edges_for_node(&id("u")).is_empty());
    assert_eq!(model.edges_for_node(&id("f")), vec![e3.clone()]);

    let again = model.remove_node(&id("p"));
    assert!(again.is_empty());
    assert_eq!(model.node_count(), 3);
    assert_eq!(model.edge_count(), 1);
    assert_eq!(model.agg_edge_count(), 1);
}

#[test]
fn same_snapshot_twice_gives_the_same_state() {
    let nodes = || {
        vec![
            (id("p"), node_file("/p")),
            (id("f"), node_file("/f")),
            (id("p"), node_file("/p-later")),
        ]
    };
    let edges = || {
        vec![
            edge("p", "f", opens(3, "r")),
            edge("p", "f", opens(4, "w")),
            edge("p", "f", opens(3, "r")),
        ]
    };
    let mut a = GraphModel::new();
    a.upsert_node(id("old"), node_file("/old"), 1);
    a.upsert_edge(edge("old", "old", EdgeKind::Execs), 1);
    a.load_snapshot(nodes(), edges(), 50);
    let mut b = GraphModel::new();
    b.load_snapshot(nodes(), edges(), 50);
    b.load_snapshot(nodes(), edges(), 50);

    assert_eq!(a.node_count(), 2);
    assert_eq!(a.node(&id("p")), Some(&node_file("/p-later")));
    assert_eq!(a.edge_count(), 2);
    assert_eq!(a.agg_edge_count(), 1);
    assert_eq!(a.agg_edges(), b.agg_edges());
    assert_eq!(a.agg_edges()[0].stats.count, 2);
    assert_eq!(a.agg_edges()[0].live_count, 2);
    assert_eq!(a.agg_edges()[0].last_kind, opens(4, "w"));
    assert_eq!(a.node_count(), b.node_count());
    for i in 0..a.node_count() {
        let (nid, n) = a.node_at(i);
        assert_eq!(b.node(nid), Some(n));
    }
    for i in 0..a.edge_count() {
        assert!(b.contains_edge(a.edge_at(i)));
    }
    assert_eq!(a.edges_for_node(&id("p")), b.edges_for_node(&id("p")));
    assert!(!a.contains_node(&id("old")));
}

#[test]
fn clear_and_forget_and_touch() {
    let mut model = GraphModel::new();
    model.upsert_node(id("a"), node_file("/a"), 1);
    model.touch(&id("ghost"), 7);
    assert_eq!(model.last_seen(&id("ghost")), Some(7));
    assert!(!model.contains_node(&id("ghost")));
    model.forget_node(&id("a"));
    assert!(!model.contains_node(&id("a")));
    assert_eq!(model.last_seen(&id("a")), None);
    model.upsert_edge(edge("x", "y", EdgeKind::Execs), 2);
    model.clear();
    assert_eq!(model.node_count(), 0);
    assert_eq!(model.edge_count(), 0);
    assert_eq!(model.agg_edge_count(), 0);
    assert_eq!(model.last_seen(&id("ghost")), None);
}

#[test]
fn names_and_explanations_of_edges() {
    assert_eq!(edge_kind_name(&opens(1, "r")), "opens");
    assert_eq!(edge_kind_name(&EdgeKind::Execs), "execs");
    assert_eq!(edge_kind_name(&EdgeKind::RunsAs), "runs_as");
    assert_eq!(edge_class_name(EdgeKindClass::Opens), "opens");
    assert_eq!(edge_class_name(EdgeKindClass::Execs), "execs");
    assert_eq!(edge_class_name(EdgeKindClass::RunsAs), "runs_as");
    assert_eq!(edge_explain(&opens(3, "rw")), "process opened file (fd=3, mode=rw)");
    assert_eq!(edge_explain(&opens(-1, "?")), "process opened file (fd=-1, mode=?)");
    assert_eq!(edge_explain(&EdgeKind::Execs), "process execs file (exe)");
    assert_eq!(edge_explain(&EdgeKind::RunsAs), "process runs as user (uid)");
    assert_eq!(EdgeKindClass::from_kind(&opens(9, "w")), EdgeKindClass::Opens);
    assert_eq!(EdgeKindClass::from_kind(&EdgeKind::Execs), EdgeKindClass::Execs);
    assert_eq!(EdgeKindClass::from_kind(&EdgeKind::RunsAs), EdgeKindClass::RunsAs);
    let key = AggEdgeKey::new(&edge("a", "b", opens(9, "w")));
    assert_eq!(key, AggEdgeKey { from: id("a"), to: id("b"), class: EdgeKindClass::Opens });
}
