//! Explaining how two nodes are connected: a shortest path between them
//! over the edges of the model, through allowed nodes only.

use vstd::prelude::*;
use crate::collections::{Key, VecSet};
use crate::model::{class_of, EdgeKindClass, GraphModel};
use crate::reach::{
    found, found_from, joined_by, lemma_tree_facts, lemma_within_step, lemma_within_zero, links,
    search, search_tree, within, SearchEnd, Visit,
};
use crate::wire::{EdgeView, NodeId};

verus! {

/// One step of a path: an edge of the class `class` between `from` and
/// `to`, walked from `from` to `to` whichever way the edge points.
#[derive(Debug, PartialEq, Eq)]
pub struct PathStep {
    pub from: NodeId,
    pub to: NodeId,
    pub class: EdgeKindClass,
}

impl Clone for PathStep {
    fn clone(&self) -> (r: Self)
        ensures
            r == *self,
    {
        PathStep { from: self.from.clone(), to: self.to.clone(), class: self.class }
    }
}

/// Whether a step goes along an edge of its class onto an allowed node.
pub open spec fn step_ok(edges: Set<EdgeView>, allowed: Set<Seq<char>>, step: PathStep) -> bool {
    &&& allowed.contains(step.to@)
    &&& exists|e: EdgeView| #[trigger]
        edges.contains(e) && links(e, step.from@, step.to@) && class_of(e.kind) == step.class
}

/// Whether `path` leads from `a` to `b`: it has a step, starts at `a`, ends
/// at `b`, every step goes along an edge onto an allowed node, and every
/// step starts where the one before ends.
pub open spec fn walk(
    edges: Set<EdgeView>,
    allowed: Set<Seq<char>>,
    a: Seq<char>,
    b: Seq<char>,
    path: Seq<PathStep>,
) -> bool {
    &&& path.len() > 0
    &&& path[0].from@ == a
    &&& path.last().to@ == b
    &&& forall|i: int| 0 <= i < path.len() ==> step_ok(edges, allowed, #[trigger] path[i])
    &&& forall|i: int, j: int|
        0 <= i && j == i + 1 && j < path.len() ==> (#[trigger] path[i]).to@ == (#[trigger] path[j]).from@
}

/// What `shortest_path` returns for a depth bound of `max_depth`: nothing
/// for a bound of zero; the empty path from a node to itself; nothing if
/// one of the two nodes is not allowed or `b` is not reached from `a` in
/// `max_depth` steps; and else a path from `a` to `b` of the least number
/// of steps in which `b` is reached.
pub open spec fn shortest(
    edges: Set<EdgeView>,
    allowed: Set<Seq<char>>,
    a: Seq<char>,
    b: Seq<char>,
    max_depth: nat,
    r: Option<Seq<PathStep>>,
) -> bool {
    if max_depth == 0 {
        r is None
    } else if a == b {
        r == Some(Seq::<PathStep>::empty())
    } else if !allowed.contains(a) || !allowed.contains(b) || !within(
        edges,
        allowed,
        a,
        max_depth,
    ).contains(b) {
        r is None
    } else {
        &&& r is Some
        &&& walk(edges, allowed, a, b, r->0)
        &&& r->0.len() <= max_depth
        &&& within(edges, allowed, a, r->0.len()).contains(b)
        &&& !within(edges, allowed, a, (r->0.len() - 1) as nat).contains(b)
    }
}

/// The end of a path of `n` steps from `a` lies within `n` steps of `a`.
/// So where `b` does not lie within `n` steps, no path from `a` to `b`
/// has `n` steps or fewer.
pub proof fn lemma_walk_reaches(
    edges: Set<EdgeView>,
    allowed: Set<Seq<char>>,
    a: Seq<char>,
    b: Seq<char>,
    path: Seq<PathStep>,
)
    requires
        walk(edges, allowed, a, b, path),
    ensures
        within(edges, allowed, a, path.len()).contains(b),
    decreases path.len(),
{
    let last = path.last();
    assert(step_ok(edges, allowed, last));
    let e = choose|e: EdgeView| #[trigger]
        edges.contains(e) && links(e, last.from@, last.to@) && class_of(e.kind) == last.class;
    assert(joined_by(edges, last.from@, last.to@));
    if path.len() == 1 {
        lemma_within_zero(edges, allowed, a, a);
        lemma_within_step(edges, allowed, a, 0, a, b);
    } else {
        let init = path.drop_last();
        assert(walk(edges, allowed, a, last.from@, init)) by {
            assert(init.last() == path[path.len() - 2]);
            assert forall|i: int| 0 <= i < init.len() implies step_ok(edges, allowed, #[trigger] init[i]) by {
                assert(init[i] == path[i]);
            }
            assert forall|i: int, j: int| 0 <= i && j == i + 1 && j < init.len() implies (
            #[trigger] init[i]).to@ == (#[trigger] init[j]).from@ by {
                assert(init[i] == path[i]);
                assert(init[j] == path[j]);
            }
        }
        lemma_walk_reaches(edges, allowed, a, last.from@, init);
        lemma_within_step(edges, allowed, a, init.len(), last.from@, b);
    }
}

/// The path by which a search has found the node at position `t`: from the
/// start, one step for each node on the way, as many as the node is deep.
fn reconstruct_path(
    visits: &Vec<Visit>,
    t: usize,
    Ghost(edges): Ghost<Set<EdgeView>>,
    Ghost(allowed): Ghost<Set<Seq<char>>>,
    Ghost(start): Ghost<Seq<char>>,
    Ghost(max_depth): Ghost<nat>,
) -> (path: Vec<PathStep>)
    requires
        search_tree(edges, allowed, start, max_depth, visits@),
        t < visits.len(),
    ensures
        path.len() == visits[t as int].depth,
        t > 0 ==> walk(edges, allowed, start, visits[t as int].id@, path@),
{
    let mut path: Vec<PathStep> = Vec::new();
    let mut cur: usize = t;
    while cur != 0
        invariant
            search_tree(edges, allowed, start, max_depth, visits@),
            cur <= t,
            t < visits.len(),
            path.len() + visits[cur as int].depth == visits[t as int].depth,
            path.len() == 0 ==> cur == t,
            path.len() > 0 ==> path[0].from@ == visits[cur as int].id@ && path@.last().to@
                == visits[t as int].id@,
            forall|i: int| 0 <= i < path.len() ==> step_ok(edges, allowed, #[trigger] path[i]),
            forall|i: int, j: int|
                0 <= i && j == i + 1 && j < path.len() ==> (#[trigger] path[i]).to@ == (
                #[trigger] path[j]).from@,
        decreases cur,
    {
        proof {
            lemma_tree_facts(edges, allowed, start, max_depth, visits@, cur as int);
            assert(found_from(edges, allowed, max_depth, visits@, cur as int));
        }
        let v = &visits[cur];
        let parent = v.parent;
        let step = PathStep { from: visits[parent].id.clone(), to: v.id.clone(), class: v.class };
        let ghost before = path@;
        proof {
            let e = choose|e: EdgeView| #[trigger]
                edges.contains(e) && links(e, visits[parent as int].id@, v.id@) && class_of(e.kind)
                    == v.class;
            assert(edges.contains(e) && links(e, step.from@, step.to@) && class_of(e.kind) == step.class);
            assert(step_ok(edges, allowed, step));
        }
        path.insert(0, step);
        proof {
            assert forall|i: int| 0 <= i < path.len() implies step_ok(edges, allowed, #[trigger] path[i]) by {
                if i > 0 {
                    assert(path[i] == before[i - 1]);
                }
            }
            assert forall|i: int, j: int| 0 <= i && j == i + 1 && j < path.len() implies (
            #[trigger] path[i]).to@ == (#[trigger] path[j]).from@ by {
                if i > 0 {
                    assert(path[i] == before[i - 1]);
                    assert(path[j] == before[j - 1]);
                } else {
                    assert(path[1] == before[0]);
                }
            }
            if before.len() > 0 {
                assert(path@.last() == before.last());
            }
        }
        cur = parent;
    }
    proof {
        lemma_tree_facts(edges, allowed, start, max_depth, visits@, 0);
    }
    path
}

/// A shortest path from `a` to `b` of at most `max_depth` steps, along
/// edges in either direction and through allowed nodes only.
pub fn shortest_path(
    model: &GraphModel,
    a: NodeId,
    b: NodeId,
    max_depth: usize,
    allowed: &VecSet<NodeId>,
) -> (r: Option<Vec<PathStep>>)
    requires
        model.wf(),
    ensures
        shortest(
            model.edges_view(),
            allowed@,
            a@,
            b@,
            max_depth as nat,
            match r {
                Some(path) => Some(path@),
                None => None,
            },
        ),
{
    if max_depth == 0 {
        return None;
    }
    if a.same(&b) {
        return Some(Vec::new());
    }
    if !allowed.contains(&a) || !allowed.contains(&b) {
        return None;
    }
    let ghost edges = model.edges_view();
    let (visits, end) = search(model, &a, max_depth, Some(allowed), Some(&b), None);
    match end {
        SearchEnd::Target => {
            let t = visits.len() - 1;
            let path = reconstruct_path(
                &visits,
                t,
                Ghost(edges),
                Ghost(allowed@),
                Ghost(a@),
                Ghost(max_depth as nat),
            );
            proof {
                lemma_tree_facts(edges, allowed@, a@, max_depth as nat, visits@, t as int);
                lemma_tree_facts(edges, allowed@, a@, max_depth as nat, visits@, 0);
                assert(t > 0);
            }
            Some(path)
        },
        _ => {
            proof {
                if within(edges, allowed@, a@, max_depth as nat).contains(b@) {
                    assert(found(visits@, b@));
                }
            }
            None
        },
    }
}

} // verus!
