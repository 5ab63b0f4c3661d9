use spacegraph::collections::VecSet;
use spacegraph::explain::PathStep;
use spacegraph::layout::Placement;
use spacegraph::model::EdgeKindClass;
use spacegraph::protocol::{Incoming, IncomingKind};
use spacegraph::state::{time_after, GraphState, ViewMode};
use spacegraph::timeline::{BatchSpan, NodeLife, TimelineEvtKind};
use spacegraph::wire::{Delta, Edge, EdgeKind, FileKind, Msg, Node, NodeId};

fn id(s: &str) -> NodeId {
    NodeId(s.to_string())
}

fn file(path: &str, inode: u64) -> Node {
    Node::File { path: path.to_string(), inode, kind: FileKind::Regular }
}

fn process(pid: i32, cmd: &str) -> Node {
    Node::Process { pid, ppid: 1, exe: "/bin/x".to_string(), cmdline: cmd.to_string(), uid: 0 }
}

fn user(uid: u32, name: &str) -> Node {
    Node::User { uid, name: name.to_string() }
}

fn edge(from: &str, to: &str, kind: EdgeKind) -> Edge {
    Edge { from: id(from), to: id(to), kind }
}

fn event(d: Delta) -> Incoming {
    Incoming::event("s".to_string(), Msg::Event { delta: d })
}

fn set_of(ids: &[&str]) -> VecSet<NodeId> {
    let mut s = VecSet::new();
    for i in ids {
        s.insert(id(i));
    }
    s
}

fn members(s: &VecSet<NodeId>) -> Vec<String> {
    let mut v: Vec<String> = (0..s.len()).map(|i| s.item_at(i).0.clone()).collect();
    v.sort();
    v
}

#[test]
fn gc_removes_orphan_file_after_ttl() {
    let mut st = GraphState::default();
    let file_id = id("file-1");
    let now: u64 = 1_000_000;
    st.model.upsert_node(file_id.clone(), file("/tmp/test", 1), now - 10_000);
    st.cfg.gc_ttl = 5_000;
    st.perf.gc_last_run = now - st.cfg.gc_interval - 1;

    st.tick_gc(now);

    assert!(!st.model.contains_node(&file_id));
}

#[test]
fn search_returns_stable_sorted_hits_and_limit() {
    let mut st = GraphState::default();
    let a = id("a-node");
    let b = id("b-node");
    let c = id("c-node");

    st.model.upsert_node(b.clone(), file("/var/log/b.log", 2), 0);
    st.model.upsert_node(a.clone(), file("/var/log/a.log", 1), 0);
    st.model.upsert_node(c.clone(), file("/var/log/c.log", 3), 0);

    st.ui.search_query = "log".to_string();
    st.recompute_search_hits(2);

    assert_eq!(st.ui.search_hits.len(), 2);
    assert_eq!(st.ui.search_hits[0].0, "a-node");
    assert_eq!(st.ui.search_hits[1].0, "b-node");
}

#[test]
fn search_matches_in_any_case_and_keeps_at_least_one() {
    let mut st = GraphState::default();
    st.model.upsert_node(id("Proc1"), process(1, "Nginx -g daemon"), 0);
    st.model.upsert_node(id("u1"), user(0, "Root"), 0);
    st.model.upsert_node(id("f1"), file("/etc/NGINX.conf", 1), 0);
    st.ui.search_query = "  nGiNx ".to_string();
    st.recompute_search_hits(10);
    assert_eq!(st.ui.search_hits, vec![id("Proc1"), id("f1")]);
    st.recompute_search_hits(0);
    assert_eq!(st.ui.search_hits, vec![id("Proc1")]);
    st.ui.search_query = "proc1".to_string();
    st.recompute_search_hits(5);
    assert_eq!(st.ui.search_hits, vec![id("Proc1")]);
    st.ui.search_query = "/bin/x".to_string();
    st.recompute_search_hits(5);
    assert_eq!(st.ui.search_hits, vec![id("Proc1")]);
    st.ui.search_query = "root".to_string();
    st.recompute_search_hits(5);
    assert_eq!(st.ui.search_hits, vec![id("u1")]);
    st.ui.search_query = "   ".to_string();
    st.recompute_search_hits(5);
    assert!(st.ui.search_hits.is_empty());
}

#[test]
fn gc_leaves_young_files_connected_files_and_other_kinds() {
    let mut st = GraphState::default();
    let now: u64 = 100_000;
    st.cfg.gc_ttl = 5_000;
    st.cfg.gc_interval = 1_000;
    st.model.upsert_node(id("old-file"), file("/a", 1), now - 5_000);
    st.model.upsert_node(id("young-file"), file("/b", 2), now - 4_999);
    st.model.upsert_node(id("old-user"), user(1, "u"), 0);
    st.model.upsert_node(id("old-proc"), process(9, "x"), 0);
    st.model.upsert_node(id("tied-file"), file("/c", 3), 0);
    st.model.upsert_edge(edge("old-proc", "tied-file", EdgeKind::Execs), 0);
    st.spatial.placed.insert(id("old-file"));
    st.spatial.glow_nodes.insert(id("old-file"), now + 10);
    st.ui.focus = Some(id("old-file"));
    st.ui.selected = Some(id("young-file"));
    st.ui.hovered = Some(id("old-file"));
    st.ui.selected_a = Some(id("old-file"));
    st.needs_redraw = false;

    st.perf.gc_last_run = now - 999;
    st.tick_gc(now);
    assert!(st.model.contains_node(&id("old-file")));
    assert_eq!(st.perf.gc_last_run, now - 999);
    assert!(!st.needs_redraw);

    st.cfg.gc_enabled = false;
    st.perf.gc_last_run = 0;
    st.tick_gc(now);
    assert!(st.model.contains_node(&id("old-file")));

    st.cfg.gc_enabled = true;
    st.tick_gc(now);
    assert_eq!(st.perf.gc_last_run, now);
    assert!(!st.model.contains_node(&id("old-file")));
    assert_eq!(st.model.last_seen(&id("old-file")), None);
    for kept in ["young-file", "old-user", "old-proc", "tied-file"] {
        assert!(st.model.contains_node(&id(kept)));
    }
    assert!(!st.spatial.placed.contains(&id("old-file")));
    assert!(!st.node_is_glowing(&id("old-file")));
    assert_eq!(st.ui.focus, None);
    assert_eq!(st.ui.hovered, None);
    assert_eq!(st.ui.selected, Some(id("young-file")));
    assert_eq!(st.ui.selected_a, Some(id("old-file")));
    assert!(st.needs_redraw);
    assert_eq!(st.model.edge_count(), 1);
}

#[test]
fn default_state() {
    let st = GraphState::default();
    assert_eq!(st.timeline.window, 60_000);
    assert_eq!(st.timeline.max_events, 20_000);
    assert_eq!(st.ui.focus_hops, 2);
    assert!(st.ui.show_3d && st.ui.show_edges);
    assert_eq!(st.ui.view_mode, ViewMode::Spatial);
    assert_eq!(st.cfg.glow_duration, 900);
    assert_eq!(st.cfg.max_visible_nodes, 1200);
    assert_eq!(st.cfg.progressive_nodes_per_frame, 250);
    assert!(st.cfg.gc_enabled);
    assert_eq!(st.cfg.gc_ttl, 30_000);
    assert_eq!(st.cfg.gc_interval, 1_000);
    assert!(!st.cfg.show_raw_edges && st.cfg.show_agg_edges);
    assert_eq!(st.cfg.explain_max_depth, 4);
    assert!(st.spatial.dirty_layout && st.needs_redraw);
    assert_eq!(st.model.node_count(), 0);
    assert_eq!(GraphState::new(77).perf.gc_last_run, 77);
    assert_eq!(time_after(10, 5), 15);
    assert_eq!(time_after(u64::MAX - 1, 5), u64::MAX);
}

#[test]
fn batch_glows_once_at_its_end() {
    let mut st = GraphState::default();
    st.needs_redraw = false;
    st.apply(event(Delta::BatchBegin { id: 7 }), 100);
    assert!(st.spatial.in_batch);
    assert_eq!(st.spatial.last_batch_id, Some(7));
    st.apply(event(Delta::UpsertNode { id: id("p"), node: process(1, "a") }), 110);
    st.apply(event(Delta::UpsertNode { id: id("f"), node: file("/f", 1) }), 120);
    let e = edge("p", "f", EdgeKind::Execs);
    st.apply(event(Delta::UpsertEdge { edge: e.clone() }), 130);
    assert!(!st.node_is_glowing(&id("p")));
    assert!(!st.edge_is_glowing(&e));
    assert_eq!(members(&st.spatial.touched_nodes), vec!["f", "p"]);
    assert!(st.spatial.touched_edges.contains(&e));
    st.apply(event(Delta::BatchEnd { id: 7 }), 200);
    assert!(!st.spatial.in_batch);
    assert_eq!(st.spatial.glow_nodes.get(&id("p")), Some(&1_100));
    assert_eq!(st.spatial.glow_nodes.get(&id("f")), Some(&1_100));
    assert_eq!(st.spatial.glow_edges.get(&e), Some(&1_100));
    assert_eq!(st.spatial.touched_nodes.len(), 0);
    assert_eq!(st.spatial.touched_edges.len(), 0);
    assert!(st.needs_redraw);
    assert_eq!(st.perf.event_total, 5);
    assert_eq!(st.events_in_window(), 5);
    assert_eq!(st.timeline.events.len(), 5);
    assert_eq!(st.timeline.events[0].kind, TimelineEvtKind::BatchBegin(7));
    assert_eq!(st.timeline.events[3].kind, TimelineEvtKind::EdgeUpsert);
    assert_eq!(st.timeline.events[3].a, Some(id("p")));
    assert_eq!(st.timeline.events[3].b, Some(id("f")));
    assert_eq!(st.timeline.events[3].edge_kind, Some(EdgeKind::Execs));
    assert_eq!(st.timeline.events[4].kind, TimelineEvtKind::BatchEnd(7));
    assert_eq!(st.timeline.active_batch_span(7), Some(BatchSpan { id: 7, start: 100, end: Some(200) }));
    assert_eq!(
        st.timeline.node_life.get(&id("p")),
        Some(&NodeLife { first_seen: 110, last_seen: 110, removed_at: None })
    );
    assert_eq!(st.model.last_seen(&id("p")), Some(130));
    assert_eq!(st.model.last_seen(&id("f")), Some(130));
}

#[test]
fn deltas_outside_a_batch_glow_at_once() {
    let mut st = GraphState::default();
    st.cfg.glow_duration = 50;
    st.apply(event(Delta::UpsertNode { id: id("p"), node: process(1, "a") }), 10);
    assert_eq!(st.spatial.glow_nodes.get(&id("p")), Some(&60));
    let e = edge("p", "q", EdgeKind::RunsAs);
    st.apply(event(Delta::UpsertEdge { edge: e.clone() }), 20);
    assert_eq!(st.spatial.glow_edges.get(&e), Some(&70));
    assert_eq!(st.model.last_seen(&id("q")), Some(20));
    assert!(!st.model.contains_node(&id("q")));
    st.apply(event(Delta::RemoveEdge { edge: e.clone() }), 30);
    assert!(!st.edge_is_glowing(&e));
    assert!(!st.model.contains_edge(&e));
    assert_eq!(st.timeline.events[2].kind, TimelineEvtKind::EdgeRemove);
    st.tick_glow(59);
    assert!(st.node_is_glowing(&id("p")));
    st.needs_redraw = false;
    st.tick_glow(60);
    assert!(!st.node_is_glowing(&id("p")));
    assert!(st.needs_redraw);
    st.needs_redraw = false;
    st.tick_glow(61);
    assert!(!st.needs_redraw);
}

#[test]
fn remove_node_clears_what_points_at_it() {
    let mut st = GraphState::default();
    st.apply(event(Delta::UpsertNode { id: id("p"), node: process(1, "a") }), 10);
    st.apply(event(Delta::UpsertNode { id: id("f"), node: file("/f", 1) }), 10);
    let e = edge("p", "f", EdgeKind::Execs);
    st.apply(event(Delta::UpsertEdge { edge: e.clone() }), 10);
    st.spatial.placed.insert(id("p"));
    st.spatial.placed.insert(id("f"));
    st.ui.focus = Some(id("p"));
    st.ui.selected = Some(id("p"));
    st.ui.selected_a = Some(id("p"));
    st.ui.selected_b = Some(id("f"));
    st.ui.hovered = Some(id("p"));
    st.spatial.dirty_layout = false;
    st.apply(event(Delta::RemoveNode { id: id("p") }), 20);
    assert!(!st.model.contains_node(&id("p")));
    assert_eq!(st.model.edge_count(), 0);
    assert_eq!(st.model.agg_edge_count(), 0);
    assert!(!st.spatial.placed.contains(&id("p")));
    assert!(st.spatial.placed.contains(&id("f")));
    assert!(!st.node_is_glowing(&id("p")));
    assert!(!st.edge_is_glowing(&e));
    assert_eq!(st.ui.focus, None);
    assert_eq!(st.ui.selected, None);
    assert_eq!(st.ui.selected_a, None);
    assert_eq!(st.ui.selected_b, Some(id("f")));
    assert_eq!(st.ui.hovered, None);
    assert!(st.spatial.dirty_layout);
    assert_eq!(
        st.timeline.node_life.get(&id("p")),
        Some(&NodeLife { first_seen: 10, last_seen: 20, removed_at: Some(20) })
    );
    assert_eq!(st.timeline.events.back().unwrap().kind, TimelineEvtKind::NodeRemove);
}

#[test]
fn snapshot_replaces_the_model_and_restarts_the_layout() {
    let mut st = GraphState::default();
    st.apply(event(Delta::UpsertNode { id: id("old"), node: file("/old", 1) }), 5);
    st.spatial.active_vis_cache = vec![id("old")];
    st.spatial.progressive_cursor = 1;
    st.spatial.dirty_layout = false;
    let snapshot = Msg::Snapshot {
        nodes: vec![(id("p"), process(1, "a")), (id("f"), file("/f", 1))],
        edges: vec![edge("p", "f", EdgeKind::Execs)],
    };
    st.apply(Incoming::snapshot("s".to_string(), snapshot), 50);
    assert_eq!(st.model.node_count(), 2);
    assert!(!st.model.contains_node(&id("old")));
    assert_eq!(st.model.edge_count(), 1);
    assert_eq!(st.model.last_seen(&id("p")), Some(50));
    assert!(st.spatial.dirty_layout);
    assert!(st.spatial.active_vis_cache.is_empty());
    assert_eq!(st.spatial.progressive_cursor, 0);
    assert_eq!(
        st.timeline.node_life.get(&id("f")),
        Some(&NodeLife { first_seen: 50, last_seen: 50, removed_at: None })
    );
    assert!(st.timeline.node_life.contains_key(&id("old")));
    assert_eq!(st.perf.event_total, 2);

    st.apply(Incoming::connected("s".to_string()), 60);
    st.apply(Incoming::other("s".to_string(), Msg::Ping), 61);
    st.apply(Incoming::error("s".to_string(), "bad frame".to_string()), 62);
    st.apply(Incoming::event("s".to_string(), Msg::Pong), 63);
    assert_eq!(st.model.node_count(), 2);
    assert_eq!(st.perf.event_total, 6);
}

#[test]
fn incoming_messages_are_classified() {
    let ident = spacegraph::server::identity_msg("n", "h", "linux", "x86_64");
    assert!(matches!(Incoming::classify("s".into(), ident).kind, IncomingKind::Identity(_)));
    let snap = Msg::Snapshot { nodes: vec![], edges: vec![] };
    assert!(matches!(Incoming::classify("s".into(), snap).kind, IncomingKind::Snapshot(_)));
    let ev = Msg::Event { delta: Delta::BatchBegin { id: 1 } };
    assert!(matches!(Incoming::classify("s".into(), ev).kind, IncomingKind::Event(_)));
    assert!(matches!(Incoming::classify("s".into(), Msg::Ping).kind, IncomingKind::Other(Msg::Ping)));
    assert_eq!(Incoming::disconnected("x".into()).kind, IncomingKind::Disconnected);
    assert_eq!(Incoming::connected("x".into()).stream, "x");
    assert_eq!(
        Incoming::identity("x".into(), Msg::Pong).kind,
        IncomingKind::Identity(Msg::Pong)
    );
}

#[test]
fn rate_window_holds_the_last_two_seconds() {
    let mut st = GraphState::default();
    for t in [100, 1_000, 2_000, 3_000] {
        st.on_message(t);
    }
    st.tick_metrics(3_000);
    assert_eq!(st.events_in_window(), 3);
    st.tick_metrics(4_001);
    assert_eq!(st.events_in_window(), 1);
    assert_eq!(st.perf.event_total, 4);
}

#[test]
fn pause_and_resume() {
    let mut st = GraphState::default();
    st.needs_redraw = false;
    st.set_timeline_pause(false, 10);
    assert!(!st.needs_redraw);
    st.set_timeline_pause(true, 10);
    assert!(st.timeline.pause);
    assert_eq!(st.timeline.frozen_now, Some(10));
    assert!(st.needs_redraw);
    st.timeline.set_scrub(4);
    assert_eq!(st.timeline_now(500), 6);
    st.set_timeline_pause(false, 20);
    assert_eq!(st.timeline.frozen_now, None);
    assert_eq!(st.timeline.scrub, 0);
    assert_eq!(st.timeline_now(500), 500);
}

#[test]
fn clear_forgets_the_graph_and_keeps_the_settings() {
    let mut st = GraphState::default();
    st.cfg.max_visible_nodes = 5;
    st.ui.filter = "x".to_string();
    st.apply(event(Delta::UpsertNode { id: id("p"), node: process(1, "a") }), 10);
    st.ui.focus = Some(id("p"));
    st.ui.search_query = "p".to_string();
    st.recompute_search_hits(3);
    st.request_jump(id("p"));
    assert_eq!(st.ui.jump_to, Some(id("p")));
    st.spatial.placed.insert(id("p"));
    st.clear();
    assert_eq!(st.model.node_count(), 0);
    assert_eq!(st.ui.focus, None);
    assert_eq!(st.ui.jump_to, None);
    assert!(st.ui.search_hits.is_empty());
    assert_eq!(st.ui.search_query, "");
    assert_eq!(st.ui.filter, "x");
    assert_eq!(st.spatial.placed.len(), 0);
    assert_eq!(st.spatial.glow_nodes.len(), 0);
    assert_eq!(st.perf.event_total, 0);
    assert_eq!(st.timeline.events.len(), 0);
    assert_eq!(st.timeline.node_life.len(), 0);
    assert_eq!(st.cfg.max_visible_nodes, 5);
    assert!(st.needs_redraw && st.spatial.dirty_layout);
}

#[test]
fn labels_and_tooltips() {
    let mut st = GraphState::default();
    st.model.upsert_node(id("n:file:/a"), file("/var//log/./a.log", 12), 0);
    assert_eq!(st.node_label_with_id(&id("n:file:/a")), "/var/log/a.log (n:file:/a)");
    assert_eq!(st.node_label_with_id(&id("zz")), "zz");
    assert_eq!(st.node_tooltip_lines(&id("zz")), vec!["zz".to_string()]);
    assert_eq!(
        st.node_tooltip_lines(&id("n:file:/a")),
        vec![
            "/var/log/a.log (n:file:/a)".to_string(),
            "kind: file".to_string(),
            "path: /var/log/a.log".to_string(),
            "inode: 12".to_string(),
            "filekind: Regular".to_string(),
        ]
    );
}

#[test]
fn explanation_is_cached_for_a_short_while() {
    let mut st = GraphState::default();
    st.model.upsert_edge(edge("a", "b", EdgeKind::Execs), 0);
    let allowed = set_of(&["a", "b", "c"]);
    let step = PathStep { from: id("a"), to: id("b"), class: EdgeKindClass::Execs };
    assert_eq!(st.explain_path_cached(&id("a"), &id("b"), &allowed, 1_000), Some(vec![step.clone()]));
    st.model.remove_edge(&edge("a", "b", EdgeKind::Execs));
    assert_eq!(st.explain_path_cached(&id("a"), &id("b"), &allowed, 1_200), Some(vec![step.clone()]));
    assert_eq!(st.explain_path_cached(&id("a"), &id("b"), &allowed, 1_201), None);
    assert_eq!(st.explain_cache.as_ref().unwrap().ts, 1_201);
    st.model.upsert_edge(edge("a", "b", EdgeKind::Execs), 0);
    assert_eq!(st.explain_path_cached(&id("a"), &id("b"), &allowed, 1_250), None);
    st.ui.focus = Some(id("a"));
    assert_eq!(st.explain_path_cached(&id("a"), &id("b"), &allowed, 1_260), Some(vec![step.clone()]));
    assert_eq!(st.explain_path_cached(&id("b"), &id("a"), &allowed, 1_261).unwrap().len(), 1);
    st.cfg.explain_max_depth = 0;
    st.model.upsert_edge(edge("b", "c", EdgeKind::Execs), 0);
    assert_eq!(st.explain_path_cached(&id("a"), &id("c"), &allowed, 2_000), None);
}

#[test]
fn visible_set_is_capped() {
    let mut st = GraphState::default();
    for n in ["d", "b", "a", "c", "e"] {
        st.model.upsert_node(id(n), file(n, 1), 0);
    }
    st.cfg.max_visible_nodes = 3;
    let vis = st.visible_set_capped();
    assert_eq!(members(&vis), vec!["a", "b", "c"]);
    assert!(vis.len() <= st.cfg.max_visible_nodes);
    st.cfg.max_visible_nodes = 0;
    assert_eq!(st.visible_set_capped().len(), 0);
    st.cfg.max_visible_nodes = 10;
    assert_eq!(st.visible_set_capped().len(), 5);
    st.ui.filter = "  ".to_string();
    assert_eq!(st.visible_set_capped().len(), 5);
    st.ui.filter = "C".to_string();
    assert_eq!(members(&st.visible_set_capped()), vec!["c"]);
}

#[test]
fn focus_reaches_two_hops_on_a_path_graph() {
    let mut st = GraphState::default();
    for n in ["A", "B", "C", "D"] {
        st.model.upsert_node(id(n), file(n, 1), 0);
    }
    st.model.upsert_edge(edge("A", "B", EdgeKind::Execs), 0);
    st.model.upsert_edge(edge("B", "C", EdgeKind::Execs), 0);
    st.model.upsert_edge(edge("C", "D", EdgeKind::Execs), 0);
    st.ui.focus = Some(id("A"));
    st.ui.focus_hops = 2;
    st.cfg.max_visible_nodes = 10;
    assert_eq!(members(&st.visible_set_capped()), vec!["A", "B", "C"]);
    st.ui.focus_hops = 0;
    assert_eq!(members(&st.visible_set_capped()), vec!["A", "B"]);
    st.ui.focus_hops = 9;
    assert_eq!(members(&st.visible_set_capped()), vec!["A", "B", "C", "D"]);
    st.ui.filter = "d".to_string();
    assert_eq!(members(&st.visible_set_capped()), vec!["A", "D"]);
    st.ui.filter.clear();
    st.cfg.max_visible_nodes = 2;
    let vis = st.visible_set_capped();
    assert_eq!(members(&vis), vec!["A", "B"]);
    st.ui.focus = Some(id("nowhere"));
    assert_eq!(members(&st.visible_set_capped()), vec!["nowhere"]);
}

#[test]
fn the_focus_stays_when_the_cap_cuts() {
    let mut st = GraphState::default();
    for n in ["a", "b", "z"] {
        st.model.upsert_node(id(n), file(n, 1), 0);
    }
    st.model.upsert_edge(edge("z", "a", EdgeKind::Execs), 0);
    st.model.upsert_edge(edge("z", "b", EdgeKind::Execs), 0);
    st.ui.focus = Some(id("z"));
    st.cfg.max_visible_nodes = 1;
    assert_eq!(members(&st.visible_set_capped()), vec!["z"]);
    st.cfg.max_visible_nodes = 2;
    assert_eq!(members(&st.visible_set_capped()), vec!["a", "z"]);
    st.cfg.max_visible_nodes = 3;
    assert_eq!(members(&st.visible_set_capped()), vec!["a", "b", "z"]);
    st.cfg.max_visible_nodes = 0;
    assert_eq!(st.visible_set_capped().len(), 0);
    st.cfg.max_visible_nodes = 3;
    st.ui.filter = "no such text".to_string();
    assert_eq!(members(&st.visible_set_capped()), vec!["z"]);
}

#[test]
fn edges_are_explained() {
    let st = GraphState::default();
    assert_eq!(
        st.explain_edge(&edge("p", "f", EdgeKind::Opens { fd: 3, mode: "rw".into() })),
        "p -> f : opens (process opened file (fd=3, mode=rw))"
    );
    assert_eq!(
        st.explain_edge(&edge("p", "u", EdgeKind::RunsAs)),
        "p -> u : runs_as (process runs as user (uid))"
    );
    assert_eq!(
        st.explain_edge(&edge("p", "x", EdgeKind::Execs)),
        "p -> x : execs (process execs file (exe))"
    );
}

#[test]
fn visible_edges_are_counted() {
    let mut st = GraphState::default();
    st.model.upsert_edge(edge("p", "f", EdgeKind::Opens { fd: 1, mode: "r".into() }), 0);
    st.model.upsert_edge(edge("p", "f", EdgeKind::Opens { fd: 2, mode: "r".into() }), 0);
    st.model.upsert_edge(edge("p", "u", EdgeKind::RunsAs), 0);
    st.model.upsert_edge(edge("q", "f", EdgeKind::Execs), 0);
    let vis = set_of(&["p", "f", "u"]);
    assert_eq!(st.visible_edge_counts(&vis), (3, 2));
    assert_eq!(st.visible_edge_counts(&set_of(&["p"])), (0, 0));
    assert!(st.edge_visible(&edge("p", "f", EdgeKind::Execs), &vis));
    assert!(!st.edge_visible(&edge("p", "q", EdgeKind::Execs), &vis));
    st.set_visible_counts(3, 3, 2);
    assert_eq!(
        (st.perf.visible_nodes, st.perf.visible_raw_edges, st.perf.visible_agg_edges, st.perf.visible_edges),
        (3, 3, 2, 5)
    );
    st.set_visible_counts(1, usize::MAX, 2);
    assert_eq!(st.perf.visible_edges, usize::MAX);
}

#[test]
fn placing_goes_through_the_cache_frame_by_frame() {
    let mut st = GraphState::default();
    st.model.upsert_node(id("proc1"), process(1, "a"), 0);
    st.model.upsert_node(id("f1"), file("/f1", 1), 0);
    st.model.upsert_node(id("f2"), file("/f2", 1), 0);
    st.model.upsert_node(id("u1"), user(1, "u"), 0);
    st.cfg.progressive_nodes_per_frame = 3;
    st.spatial.placed.insert(id("f2"));
    let vis = set_of(&["u1", "proc1", "f2", "f1", "gone"]);
    let Placement { processes, files, users, reached } = st.progressive_prepare(&vis);
    assert_eq!(st.spatial.active_vis_cache, vec![id("f1"), id("f2"), id("gone"), id("proc1"), id("u1")]);
    assert_eq!(reached, vec![id("f1"), id("f2"), id("gone")]);
    assert_eq!(files, vec![id("f1")]);
    assert!(processes.is_empty() && users.is_empty());
    assert_eq!(st.spatial.progressive_cursor, 3);
    assert!(st.spatial.dirty_layout);
    assert!(st.spatial.placed.contains(&id("f1")));

    st.spatial.dirty_layout = false;
    let plan = st.progressive_prepare(&set_of(&["other"]));
    assert_eq!(plan.reached, vec![id("proc1"), id("u1")]);
    assert_eq!(plan.processes, vec![id("proc1")]);
    assert_eq!(plan.users, vec![id("u1")]);
    assert_eq!(st.spatial.progressive_cursor, 5);
    assert!(!st.spatial.dirty_layout);

    let plan = st.progressive_prepare(&vis);
    assert!(plan.reached.is_empty());
    st.mark_dirty_all();
    st.cfg.progressive_nodes_per_frame = 0;
    let plan = st.progressive_prepare(&vis);
    assert_eq!(plan.reached, vec![id("f1")]);
    assert!(plan.files.is_empty());

    let (vis, plan) = st.update_layout_or_timeline();
    assert_eq!(vis.len(), 4);
    assert!(plan.is_some());
    assert_eq!(st.perf.visible_nodes, 4);
    st.ui.view_mode = ViewMode::Timeline;
    let (_, plan) = st.update_layout_or_timeline();
    assert!(plan.is_none());
}

#[test]
fn housekeeping_runs_all_ticks() {
    let mut st = GraphState::default();
    st.apply(event(Delta::UpsertNode { id: id("f"), node: file("/f", 1) }), 0);
    st.timeline.max_events = 0;
    st.tick_housekeeping(100_000);
    assert!(!st.model.contains_node(&id("f")));
    assert!(!st.node_is_glowing(&id("f")));
    assert_eq!(st.events_in_window(), 0);
    assert_eq!(st.timeline.events.len(), 0);
}
