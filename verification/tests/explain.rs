use spacegraph::collections::VecSet;
use spacegraph::explain::{shortest_path, PathStep};
use spacegraph::model::{EdgeKindClass, GraphModel};
use spacegraph::reach::{search, SearchEnd};
use spacegraph::wire::{Edge, EdgeKind, Node, NodeId};

fn id(s: &str) -> NodeId {
    NodeId(s.to_string())
}

fn user(uid: u32, name: &str) -> Node {
    Node::User { uid, name: name.to_string() }
}

fn set_of(ids: &[&NodeId]) -> VecSet<NodeId> {
    let mut s = VecSet::new();
    for i in ids {
        s.insert((*i).clone());
    }
    s
}

fn chain() -> (GraphModel, NodeId, NodeId, NodeId) {
    let mut model = GraphModel::default();
    let now: u64 = 1_000;
    let a = id("a");
    let b = id("b");
    let c = id("c");
    model.upsert_node(a.clone(), user(1, "a"), now);
    model.upsert_node(b.clone(), user(2, "b"), now);
    model.upsert_node(c.clone(), user(3, "c"), now);
    model.upsert_edge(Edge { from: a.clone(), to: b.clone(), kind: EdgeKind::Execs }, now);
    model.upsert_edge(Edge { from: b.clone(), to: c.clone(), kind: EdgeKind::RunsAs }, now);
    (model, a, b, c)
}

#[test]
fn shortest_path_finds_chain() {
    let (model, a, b, c) = chain();
    let allowed = set_of(&[&a, &b, &c]);
    let path = shortest_path(&model, a.clone(), c.clone(), 4, &allowed).unwrap();
    assert_eq!(path.len(), 2);
    assert_eq!(path[0].from, a);
    assert_eq!(path[1].to, c);
}

#[test]
fn shortest_path_respects_allowed_set() {
    let (model, a, _b, c) = chain();
    let allowed = set_of(&[&a, &c]);
    let path = shortest_path(&model, a, c, 4, &allowed);
    assert!(path.is_none());
}

#[test]
fn shortest_path_gives_every_step_with_its_class() {
    let (model, a, b, c) = chain();
    let allowed = set_of(&[&a, &b, &c]);
    assert_eq!(
        shortest_path(&model, a.clone(), c.clone(), 4, &allowed),
        Some(vec![
            PathStep { from: a.clone(), to: b.clone(), class: EdgeKindClass::Execs },
            PathStep { from: b.clone(), to: c.clone(), class: EdgeKindClass::RunsAs },
        ])
    );
    assert_eq!(
        shortest_path(&model, c.clone(), a.clone(), 2, &allowed),
        Some(vec![
            PathStep { from: c.clone(), to: b.clone(), class: EdgeKindClass::RunsAs },
            PathStep { from: b.clone(), to: a.clone(), class: EdgeKindClass::Execs },
        ])
    );
}

#[test]
fn shortest_path_edge_cases() {
    let (model, a, b, c) = chain();
    let allowed = set_of(&[&a, &b, &c]);
    assert_eq!(shortest_path(&model, a.clone(), a.clone(), 0, &allowed), None);
    assert_eq!(shortest_path(&model, a.clone(), c.clone(), 0, &allowed), None);
    assert_eq!(shortest_path(&model, a.clone(), a.clone(), 1, &allowed), Some(vec![]));
    assert_eq!(shortest_path(&model, a.clone(), a.clone(), 1, &VecSet::new()), Some(vec![]));
    assert_eq!(shortest_path(&model, a.clone(), c.clone(), 1, &allowed), None);
    assert_eq!(shortest_path(&model, a.clone(), id("z"), 4, &allowed), None);
    assert_eq!(shortest_path(&model, a.clone(), b.clone(), 4, &set_of(&[&b, &c])), None);
    assert_eq!(shortest_path(&model, a.clone(), b.clone(), 4, &set_of(&[&a, &c])), None);
}

#[test]
fn shortest_path_prefers_the_shorter_way() {
    let (mut model, a, b, c) = chain();
    let d = id("d");
    model.upsert_edge(Edge { from: c.clone(), to: d.clone(), kind: EdgeKind::Execs }, 1);
    model.upsert_edge(
        Edge { from: d.clone(), to: a.clone(), kind: EdgeKind::Opens { fd: 1, mode: "r".into() } },
        1,
    );
    let allowed = set_of(&[&a, &b, &c, &d]);
    assert_eq!(
        shortest_path(&model, a.clone(), d.clone(), 4, &allowed),
        Some(vec![PathStep { from: a.clone(), to: d.clone(), class: EdgeKindClass::Opens }])
    );
    assert_eq!(shortest_path(&model, a.clone(), c.clone(), 4, &allowed).unwrap().len(), 2);
}

#[test]
fn search_finds_nodes_in_order_of_distance() {
    let (model, a, b, c) = chain();
    let (visits, end) = search(&model, &a, 5, None, None, None);
    assert_eq!(end, SearchEnd::Exhausted);
    let ids: Vec<NodeId> = visits.iter().map(|v| v.id.clone()).collect();
    assert_eq!(ids, vec![a.clone(), b.clone(), c.clone()]);
    let depths: Vec<usize> = visits.iter().map(|v| v.depth).collect();
    assert_eq!(depths, vec![0, 1, 2]);
    assert_eq!(visits[2].parent, 1);
    assert_eq!(visits[2].class, EdgeKindClass::RunsAs);

    let (visits, end) = search(&model, &a, 1, None, None, None);
    assert_eq!(end, SearchEnd::Exhausted);
    assert_eq!(visits.len(), 2);

    let (visits, end) = search(&model, &a, 5, None, Some(&b), None);
    assert_eq!(end, SearchEnd::Target);
    assert_eq!(visits.len(), 2);

    let (visits, end) = search(&model, &a, 5, None, None, Some(2));
    assert_eq!(end, SearchEnd::Capped);
    assert_eq!(visits.len(), 2);
}
