//! Breadth-first search over the edges of the model, taken in both
//! directions: which nodes lie within a number of steps of a start, and by
//! which edges they are reached.

use vstd::prelude::*;
use crate::collections::{distinct_keys, key_set, lemma_key_set_len, VecSet, Key};
use crate::model::{class_of, has_edge, incident, other_end, EdgeKindClass, GraphModel};
use crate::wire::{EdgeView, NodeId};

verus! {

/// Whether the edge `e` joins the nodes `m` and `n`, in either direction.
pub open spec fn links(e: EdgeView, m: Seq<char>, n: Seq<char>) -> bool {
    (e.from == m && e.to == n) || (e.to == m && e.from == n)
}

/// Whether some edge of `edges` joins `m` and `n`.
pub open spec fn joined_by(edges: Set<EdgeView>, m: Seq<char>, n: Seq<char>) -> bool {
    exists|e: EdgeView| #[trigger] edges.contains(e) && links(e, m, n)
}

/// The nodes that are reached from `start` in at most `d` steps along
/// edges, each step onto an allowed node.
#[verifier::opaque]
pub open spec fn within(
    edges: Set<EdgeView>,
    allowed: Set<Seq<char>>,
    start: Seq<char>,
    d: nat,
) -> Set<Seq<char>>
    decreases d,
{
    if d == 0 {
        set![start]
    } else {
        let prev = within(edges, allowed, start, (d - 1) as nat);
        Set::new(
            |n: Seq<char>|
                prev.contains(n) || (allowed.contains(n) && exists|m: Seq<char>| #[trigger]
                    prev.contains(m) && joined_by(edges, m, n)),
        )
    }
}

/// One node that a search has found: its identifier, how many steps from
/// the start it lies, and the node and the class of the edge by which it
/// was found. For the start itself `parent` is its own position.
pub struct Visit {
    pub id: NodeId,
    pub parent: usize,
    pub class: EdgeKindClass,
    pub depth: usize,
}

/// Whether a search has found the node `n`.
pub open spec fn found(visits: Seq<Visit>, n: Seq<char>) -> bool {
    exists|i: int| 0 <= i < visits.len() && (#[trigger] visits[i]).id@ == n
}

/// What holds of the nodes that a search from `start` has found: the start
/// comes first; no node occurs twice; every other node was found from an
/// earlier one over an edge of the noted class, onto an allowed node and one
/// step farther out; the nodes are in the order of their distance; and
/// the depth of a node is the least number of steps in which it is reached.
#[verifier::opaque]
pub open spec fn search_tree(
    edges: Set<EdgeView>,
    allowed: Set<Seq<char>>,
    start: Seq<char>,
    max_depth: nat,
    visits: Seq<Visit>,
) -> bool {
    &&& visits.len() > 0
    &&& visits[0].id@ == start
    &&& visits[0].depth == 0
    &&& forall|i: int, j: int|
        0 <= i < j < visits.len() ==> (#[trigger] visits[i]).id@ != (#[trigger] visits[j]).id@
    &&& forall|i: int| 0 < i < visits.len() ==> #[trigger] found_from(edges, allowed, max_depth, visits, i)
    &&& forall|i: int, j: int|
        0 <= i <= j < visits.len() ==> (#[trigger] visits[i]).depth <= (#[trigger] visits[j]).depth
    &&& forall|i: int|
        0 <= i < visits.len() ==> within(edges, allowed, start, (#[trigger] visits[i]).depth as nat).contains(
            visits[i].id@,
        )
    &&& forall|i: int|
        0 <= i < visits.len() && (#[trigger] visits[i]).depth > 0 ==> !within(
            edges,
            allowed,
            start,
            (visits[i].depth - 1) as nat,
        ).contains(visits[i].id@)
}

/// The node at position `i` was found from an earlier node, over an edge
/// of the noted class, onto an allowed node and one step farther out.
pub open spec fn found_from(
    edges: Set<EdgeView>,
    allowed: Set<Seq<char>>,
    max_depth: nat,
    visits: Seq<Visit>,
    i: int,
) -> bool {
    let v = visits[i];
    &&& v.parent < i
    &&& v.depth == visits[v.parent as int].depth + 1
    &&& v.depth <= max_depth
    &&& allowed.contains(v.id@)
    &&& exists|e: EdgeView| #[trigger]
        edges.contains(e) && links(e, visits[v.parent as int].id@, v.id@) && class_of(e.kind) == v.class
}

/// The first `head` nodes that were found have been expanded: every
/// allowed node next to one of them that lies short of the depth bound
/// has been found.
#[verifier::opaque]
pub open spec fn expanded(
    edges: Set<EdgeView>,
    allowed: Set<Seq<char>>,
    max_depth: nat,
    visits: Seq<Visit>,
    head: int,
) -> bool {
    forall|k: int, n: Seq<char>|
        0 <= k < head && (#[trigger] visits[k]).depth < max_depth && allowed.contains(n) && #[trigger] joined_by(
            edges,
            visits[k].id@,
            n,
        ) ==> found(visits, n)
}

/// In no steps only the start is reached.
pub proof fn lemma_within_zero(edges: Set<EdgeView>, allowed: Set<Seq<char>>, start: Seq<char>, n: Seq<char>)
    ensures
        within(edges, allowed, start, 0).contains(n) <==> n == start,
{
    reveal(within);
}

/// One step from a node within `d` steps, onto an allowed node, stays
/// within `d + 1` steps, and so does every node within `d` steps.
pub proof fn lemma_within_step(
    edges: Set<EdgeView>,
    allowed: Set<Seq<char>>,
    start: Seq<char>,
    d: nat,
    m: Seq<char>,
    n: Seq<char>,
)
    requires
        within(edges, allowed, start, d).contains(m),
    ensures
        within(edges, allowed, start, d + 1).contains(m),
        allowed.contains(n) && joined_by(edges, m, n) ==> within(edges, allowed, start, d + 1).contains(n),
{
    reveal(within);
}

/// A node within `d + 1` steps lies within `d` steps, or is an allowed
/// node one step from a node within `d` steps.
pub proof fn lemma_within_last_step(
    edges: Set<EdgeView>,
    allowed: Set<Seq<char>>,
    start: Seq<char>,
    d: nat,
    n: Seq<char>,
) -> (m: Seq<char>)
    requires
        within(edges, allowed, start, d + 1).contains(n),
        !within(edges, allowed, start, d).contains(n),
    ensures
        within(edges, allowed, start, d).contains(m),
        allowed.contains(n),
        joined_by(edges, m, n),
{
    reveal(within);
    let prev = within(edges, allowed, start, d);
    choose|m: Seq<char>| #[trigger] prev.contains(m) && joined_by(edges, m, n)
}

/// More steps reach no fewer nodes.
pub proof fn lemma_within_grows(
    edges: Set<EdgeView>,
    allowed: Set<Seq<char>>,
    start: Seq<char>,
    d: nat,
    e: nat,
    n: Seq<char>,
)
    requires
        d <= e,
        within(edges, allowed, start, d).contains(n),
    ensures
        within(edges, allowed, start, e).contains(n),
    decreases e,
{
    if d < e {
        lemma_within_grows(edges, allowed, start, d, (e - 1) as nat, n);
        lemma_within_step(edges, allowed, start, (e - 1) as nat, n, n);
    }
}

/// A node within `d` steps has been found at a depth of at most `d`, once
/// every node that was found short of `d` has been expanded.
proof fn lemma_within_found(
    edges: Set<EdgeView>,
    allowed: Set<Seq<char>>,
    start: Seq<char>,
    max_depth: nat,
    visits: Seq<Visit>,
    head: int,
    d: nat,
    n: Seq<char>,
) -> (i: int)
    requires
        search_tree(edges, allowed, start, max_depth, visits),
        0 <= head <= visits.len(),
        expanded(edges, allowed, max_depth, visits, head),
        d <= max_depth,
        head < visits.len() ==> d <= visits[head].depth,
        within(edges, allowed, start, d).contains(n),
    ensures
        0 <= i < visits.len(),
        visits[i].id@ == n,
        visits[i].depth <= d,
    decreases d,
{
    if d == 0 {
        lemma_within_zero(edges, allowed, start, n);
        reveal(search_tree);
        0
    } else {
        let prev = within(edges, allowed, start, (d - 1) as nat);
        if prev.contains(n) {
            lemma_within_found(edges, allowed, start, max_depth, visits, head, (d - 1) as nat, n)
        } else {
            let m = lemma_within_last_step(edges, allowed, start, (d - 1) as nat, n);
            let k = lemma_within_found(
                edges,
                allowed,
                start,
                max_depth,
                visits,
                head,
                (d - 1) as nat,
                m,
            );
            assert(k < head) by {
                reveal(search_tree);
                if head < visits.len() {
                    if k >= head {
                        assert(visits[head].depth <= visits[k].depth);
                    }
                }
            }
            assert(found(visits, n)) by {
                reveal(expanded);
                assert(visits[k].depth < max_depth);
                assert(joined_by(edges, visits[k].id@, n));
            }
            let i = choose|i: int| 0 <= i < visits.len() && (#[trigger] visits[i]).id@ == n;
            if visits[i].depth > d {
                lemma_within_grows(edges, allowed, start, d, (visits[i].depth - 1) as nat, n);
                assert(false) by {
                    reveal(search_tree);
                }
            }
            i
        }
    }
}

/// The search that has found only its start.
proof fn lemma_tree_start(
    edges: Set<EdgeView>,
    allowed: Set<Seq<char>>,
    start: Seq<char>,
    max_depth: nat,
    visits: Seq<Visit>,
)
    requires
        visits.len() == 1,
        visits[0].id@ == start,
        visits[0].depth == 0,
    ensures
        search_tree(edges, allowed, start, max_depth, visits),
        expanded(edges, allowed, max_depth, visits, 0),
{
    reveal(search_tree);
    reveal(expanded);
    lemma_within_zero(edges, allowed, start, start);
}

/// What a search knows of a node that it has found.
pub proof fn lemma_tree_facts(
    edges: Set<EdgeView>,
    allowed: Set<Seq<char>>,
    start: Seq<char>,
    max_depth: nat,
    visits: Seq<Visit>,
    i: int,
)
    requires
        search_tree(edges, allowed, start, max_depth, visits),
        0 <= i < visits.len(),
    ensures
        visits[0].id@ == start,
        visits[0].depth == 0,
        visits[i].depth <= max_depth,
        within(edges, allowed, start, visits[i].depth as nat).contains(visits[i].id@),
        within(edges, allowed, start, max_depth).contains(visits[i].id@),
        forall|j: int| i <= j < visits.len() ==> visits[i].depth <= (#[trigger] visits[j]).depth,
        forall|j: int| 0 <= j < visits.len() && j != i ==> (#[trigger] visits[j]).id@ != visits[i].id@,
        i > 0 ==> found_from(edges, allowed, max_depth, visits, i) && visits[i].depth > 0 && !within(
            edges,
            allowed,
            start,
            (visits[i].depth - 1) as nat,
        ).contains(visits[i].id@),
{
    reveal(search_tree);
    if i > 0 {
        assert(found_from(edges, allowed, max_depth, visits, i));
    }
    lemma_within_grows(edges, allowed, start, visits[i].depth as nat, max_depth, visits[i].id@);
    assert forall|j: int| 0 <= j < visits.len() && j != i implies (#[trigger] visits[j]).id@
        != visits[i].id@ by {
        if j < i {
            assert(visits[j].id@ != visits[i].id@);
        } else {
            assert(visits[i].id@ != visits[j].id@);
        }
    }
}

/// A search that finds a new node next to the node it expands is a search
/// still, and has found that node besides those it had found.
proof fn lemma_tree_grows(
    edges: Set<EdgeView>,
    allowed: Set<Seq<char>>,
    start: Seq<char>,
    max_depth: nat,
    before: Seq<Visit>,
    head: int,
    v: Visit,
    e: EdgeView,
)
    requires
        search_tree(edges, allowed, start, max_depth, before),
        expanded(edges, allowed, max_depth, before, head),
        0 <= head < before.len(),
        forall|i: int| 0 <= i < before.len() ==> (#[trigger] before[i]).depth <= before[head].depth + 1,
        v.parent == head,
        v.depth == before[head].depth + 1,
        v.depth <= max_depth,
        allowed.contains(v.id@),
        !found(before, v.id@),
        edges.contains(e),
        links(e, before[head].id@, v.id@),
        class_of(e.kind) == v.class,
    ensures
        search_tree(edges, allowed, start, max_depth, before.push(v)),
        expanded(edges, allowed, max_depth, before.push(v), head),
        forall|i: int|
            0 <= i < before.len() + 1 ==> (#[trigger] before.push(v)[i]).depth <= before[head].depth + 1,
        forall|n: Seq<char>| found(before.push(v), n) <==> found(before, n) || n == v.id@,
{
    let after = before.push(v);
    let last = before.len() as int;
    let depth = before[head].depth as nat;
    lemma_tree_facts(edges, allowed, start, max_depth, before, head);
    assert(joined_by(edges, before[head].id@, v.id@));
    lemma_within_step(edges, allowed, start, depth, before[head].id@, v.id@);
    if within(edges, allowed, start, depth).contains(v.id@) {
        let i = lemma_within_found(edges, allowed, start, max_depth, before, head, depth, v.id@);
        assert(found(before, v.id@));
    }
    assert forall|n: Seq<char>| found(after, n) <==> found(before, n) || n == v.id@ by {
        if found(before, n) {
            let i = choose|i: int| 0 <= i < before.len() && (#[trigger] before[i]).id@ == n;
            assert(after[i].id@ == n);
        }
        if n == v.id@ {
            assert(after[last].id@ == n);
        }
        if found(after, n) {
            let i = choose|i: int| 0 <= i < after.len() && (#[trigger] after[i]).id@ == n;
            if i < last {
                assert(before[i].id@ == n);
            }
        }
    }
    assert(expanded(edges, allowed, max_depth, after, head)) by {
        reveal(expanded);
        assert forall|k: int, n: Seq<char>|
            0 <= k < head && (#[trigger] after[k]).depth < max_depth && allowed.contains(n)
                && #[trigger] joined_by(edges, after[k].id@, n) implies found(after, n) by {
            assert(before[k].depth < max_depth);
            assert(joined_by(edges, before[k].id@, n));
            assert(found(before, n));
        }
    }
    assert(search_tree(edges, allowed, start, max_depth, after)) by {
        reveal(search_tree);
        assert forall|i: int, k: int| 0 <= i < k < after.len() implies (#[trigger] after[i]).id@ != (
        #[trigger] after[k]).id@ by {
            if k == last {
                if after[i].id@ == v.id@ {
                    assert(before[i].id@ == v.id@);
                    assert(found(before, v.id@));
                }
            } else {
                assert(before[i].id@ != before[k].id@);
            }
        }
        assert forall|i: int| 0 < i < after.len() implies #[trigger] found_from(
            edges,
            allowed,
            max_depth,
            after,
            i,
        ) by {
            if i == last {
                assert(edges.contains(e) && links(e, after[head].id@, v.id@) && class_of(e.kind)
                    == v.class);
            } else {
                let w = before[i];
                assert(found_from(edges, allowed, max_depth, before, i));
                let x = choose|x: EdgeView| #[trigger]
                    edges.contains(x) && links(x, before[w.parent as int].id@, w.id@) && class_of(x.kind)
                        == w.class;
                assert(edges.contains(x) && links(x, after[w.parent as int].id@, w.id@) && class_of(
                    x.kind,
                ) == w.class);
            }
        }
        assert forall|i: int, k: int| 0 <= i <= k < after.len() implies (#[trigger] after[i]).depth <= (
        #[trigger] after[k]).depth by {
            if k == last {
                if i < last {
                    assert(before[i].depth <= before[head].depth + 1);
                }
            } else {
                assert(before[i].depth <= before[k].depth);
            }
        }
        assert forall|i: int| 0 <= i < after.len() implies within(
            edges,
            allowed,
            start,
            (#[trigger] after[i]).depth as nat,
        ).contains(after[i].id@) by {
            if i < last {
                assert(within(edges, allowed, start, before[i].depth as nat).contains(before[i].id@));
            }
        }
        assert forall|i: int| 0 <= i < after.len() && (#[trigger] after[i]).depth > 0 implies !within(
            edges,
            allowed,
            start,
            (after[i].depth - 1) as nat,
        ).contains(after[i].id@) by {
            if i < last {
                assert(before[i].depth > 0);
            }
        }
    }
}

/// Once every allowed node next to the node at `head` has been found, the
/// nodes up to and with `head` have been expanded.
proof fn lemma_expanded_next(
    edges: Set<EdgeView>,
    allowed: Set<Seq<char>>,
    start: Seq<char>,
    max_depth: nat,
    visits: Seq<Visit>,
    head: int,
)
    requires
        search_tree(edges, allowed, start, max_depth, visits),
        expanded(edges, allowed, max_depth, visits, head),
        0 <= head < visits.len(),
        visits[head].depth < max_depth ==> forall|n: Seq<char>|
            allowed.contains(n) && #[trigger] joined_by(edges, visits[head].id@, n) ==> found(visits, n),
        forall|i: int| 0 <= i < visits.len() ==> (#[trigger] visits[i]).depth <= visits[head].depth + 1,
    ensures
        expanded(edges, allowed, max_depth, visits, head + 1),
        head + 1 < visits.len() ==> forall|i: int|
            0 <= i < visits.len() ==> (#[trigger] visits[i]).depth <= visits[head + 1].depth + 1,
{
    reveal(expanded);
    reveal(search_tree);
    if head + 1 < visits.len() {
        assert(visits[head].depth <= visits[head + 1].depth);
    }
}

/// A search that has expanded every node it found has found every node
/// within the depth bound.
proof fn lemma_exhausted(
    edges: Set<EdgeView>,
    allowed: Set<Seq<char>>,
    start: Seq<char>,
    max_depth: nat,
    visits: Seq<Visit>,
)
    requires
        search_tree(edges, allowed, start, max_depth, visits),
        expanded(edges, allowed, max_depth, visits, visits.len() as int),
    ensures
        forall|n: Seq<char>| within(edges, allowed, start, max_depth).contains(n) ==> found(visits, n),
{
    assert forall|n: Seq<char>| within(edges, allowed, start, max_depth).contains(n) implies found(
        visits,
        n,
    ) by {
        let i = lemma_within_found(
            edges,
            allowed,
            start,
            max_depth,
            visits,
            visits.len() as int,
            max_depth,
            n,
        );
    }
}

/// The source of an edge.
pub open spec fn source_of() -> spec_fn(EdgeView) -> Seq<char> {
    |e: EdgeView| e.from
}

/// The target of an edge.
pub open spec fn target_of() -> spec_fn(EdgeView) -> Seq<char> {
    |e: EdgeView| e.to
}

/// The nodes that a search from `start` can find at all: the start and the
/// endpoints of the edges.
pub open spec fn universe(edges: Set<EdgeView>, start: Seq<char>) -> Set<Seq<char>> {
    edges.map(source_of()).union(edges.map(target_of())).insert(start)
}

/// The identifiers of the nodes that a search has found.
pub open spec fn ids_of(visits: Seq<Visit>) -> Seq<NodeId> {
    visits.map_values(|v: Visit| v.id)
}

/// A search finds no more nodes than there are.
proof fn lemma_visits_bounded(
    edges: Set<EdgeView>,
    allowed: Set<Seq<char>>,
    start: Seq<char>,
    max_depth: nat,
    visits: Seq<Visit>,
)
    requires
        search_tree(edges, allowed, start, max_depth, visits),
        edges.finite(),
    ensures
        universe(edges, start).finite(),
        visits.len() <= universe(edges, start).len(),
{
    reveal(search_tree);
    let ids = ids_of(visits);
    let all = universe(edges, start);
    edges.lemma_map_finite(source_of());
    edges.lemma_map_finite(target_of());
    assert(distinct_keys(ids)) by {
        assert forall|i: int, j: int| 0 <= i < j < ids.len() implies (#[trigger] ids[i])@ != (
        #[trigger] ids[j])@ by {
            assert(visits[i].id@ != visits[j].id@);
        }
    }
    lemma_key_set_len(ids);
    assert(key_set(ids).subset_of(all)) by {
        assert forall|n: Seq<char>| key_set(ids).contains(n) implies all.contains(n) by {
            let i = choose|i: int| 0 <= i < ids.len() && (#[trigger] ids[i])@ == n;
            if i > 0 {
                assert(found_from(edges, allowed, max_depth, visits, i));
                let v = visits[i];
                let e = choose|e: EdgeView| #[trigger]
                    edges.contains(e) && links(e, visits[v.parent as int].id@, v.id@) && class_of(e.kind)
                        == v.class;
                if e.to == n {
                    assert(edges.contains(e) && target_of()(e) == n);
                    assert(edges.map(target_of()).contains(n));
                } else {
                    assert(edges.contains(e) && source_of()(e) == n);
                    assert(edges.map(source_of()).contains(n));
                }
            }
        }
    }
    vstd::set_lib::lemma_len_subset(key_set(ids), all);
}

/// Whether a node may be stepped onto: any node where no set is given.
pub open spec fn allowed_set(allowed: Option<&VecSet<NodeId>>) -> Set<Seq<char>> {
    match allowed {
        Some(s) => s@,
        None => Set::<Seq<char>>::full(),
    }
}

/// Why a search has ended.
#[derive(Debug, Clone, Copy, PartialEq, Eq, Structural)]
pub enum SearchEnd {
    /// Every node within the depth bound was found.
    Exhausted,
    /// The target was found; it is the last node.
    Target,
    /// As many nodes were found as the cap allows.
    Capped,
}

/// The position at which a search has found a node, if it has.
pub fn find_visit(visits: &Vec<Visit>, id: &NodeId) -> (r: Option<usize>)
    ensures
        match r {
            Some(i) => i < visits.len() && visits[i as int].id@ == id@,
            None => !found(visits@, id@),
        },
{
    let mut i: usize = 0;
    while i < visits.len()
        invariant
            i <= visits.len(),
            forall|j: int| 0 <= j < i ==> (#[trigger] visits[j]).id@ != id@,
        decreases visits.len() - i,
    {
        if visits[i].id.same(id) {
            return Some(i);
        }
        i += 1;
    }
    None
}

/// Expands the node at `head`: finds the allowed nodes next to it that
/// were not found before, in the order of its adjacency list.
fn expand(
    model: &GraphModel,
    visits: &mut Vec<Visit>,
    head: usize,
    start: &NodeId,
    max_depth: usize,
    allowed: Option<&VecSet<NodeId>>,
    target: Option<&NodeId>,
    cap: Option<usize>,
) -> (end: SearchEnd)
    requires
        model.wf(),
        head < old(visits).len(),
        old(visits)[head as int].depth < max_depth,
        search_tree(model.edges_view(), allowed_set(allowed), start@, max_depth as nat, old(visits)@),
        expanded(model.edges_view(), allowed_set(allowed), max_depth as nat, old(visits)@, head as int),
        forall|i: int|
            0 <= i < old(visits).len() ==> (#[trigger] old(visits)[i]).depth <= old(visits)[head as int].depth
                + 1,
        target is Some && target->0@ != start@ ==> !found(old(visits)@, target->0@),
        cap is Some ==> old(visits).len() < cap->0 || old(visits).len() <= 1,
    ensures
        head < final(visits).len(),
        search_tree(model.edges_view(), allowed_set(allowed), start@, max_depth as nat, final(visits)@),
        end == SearchEnd::Exhausted ==> expanded(
            model.edges_view(),
            allowed_set(allowed),
            max_depth as nat,
            final(visits)@,
            head + 1,
        ),
        end == SearchEnd::Exhausted && head + 1 < final(visits).len() ==> forall|i: int|
            0 <= i < final(visits).len() ==> (#[trigger] final(visits)[i]).depth <= final(visits)[head
                + 1].depth + 1,
        target is Some && target->0@ != start@ ==> (end == SearchEnd::Target <==> found(
            final(visits)@,
            target->0@,
        )),
        end == SearchEnd::Target ==> target is Some && final(visits)@.last().id@ == target->0@,
        end == SearchEnd::Capped ==> cap is Some && final(visits).len() >= cap->0,
        end == SearchEnd::Exhausted ==> (cap is Some ==> final(visits).len() < cap->0 || final(visits)
            .len() <= 1),
        cap is Some ==> final(visits).len() <= cap->0 || final(visits).len() <= 2,
        cap is None ==> end != SearchEnd::Capped,
        target is None ==> end != SearchEnd::Target,
{
    let ghost edges = model.edges_view();
    let ghost may = allowed_set(allowed);
    let ghost bound = max_depth as nat;
    let depth = visits[head].depth;
    let cur = visits[head].id.clone();
    let list = model.edges_for_node(&cur);
    let mut end = SearchEnd::Exhausted;
    let mut j: usize = 0;
    while j < list.len()
        invariant_except_break
            j <= list.len(),
            forall|p: int|
                0 <= p < j && may.contains(other_end(#[trigger] list[p], cur@)@) ==> found(
                    visits@,
                    other_end(list[p], cur@)@,
                ),
            end == SearchEnd::Exhausted,
            target is Some && target->0@ != start@ ==> !found(visits@, target->0@),
            cap is Some ==> visits.len() < cap->0 || visits.len() <= 1,
        invariant
            edges == model.edges_view(),
            may == allowed_set(allowed),
            bound == max_depth as nat,
            head < visits.len(),
            cur@ == visits[head as int].id@,
            depth == visits[head as int].depth,
            depth < max_depth,
            search_tree(edges, may, start@, bound, visits@),
            expanded(edges, may, bound, visits@, head as int),
            forall|i: int| 0 <= i < visits.len() ==> (#[trigger] visits[i]).depth <= depth + 1,
            forall|p: int|
                0 <= p < list.len() ==> edges.contains((#[trigger] list[p])@) && incident(list[p]@, cur@),
        ensures
            head < visits.len(),
            cur@ == visits[head as int].id@,
            depth == visits[head as int].depth,
            search_tree(edges, may, start@, bound, visits@),
            expanded(edges, may, bound, visits@, head as int),
            forall|i: int| 0 <= i < visits.len() ==> (#[trigger] visits[i]).depth <= depth + 1,
            end == SearchEnd::Exhausted ==> forall|p: int|
                0 <= p < list.len() && may.contains(other_end(#[trigger] list[p], cur@)@) ==> found(
                    visits@,
                    other_end(list[p], cur@)@,
                ),
            target is Some && target->0@ != start@ ==> (end == SearchEnd::Target <==> found(
                visits@,
                target->0@,
            )),
            end == SearchEnd::Target ==> target is Some && visits@.last().id@ == target->0@,
            end == SearchEnd::Capped ==> cap is Some && visits.len() >= cap->0,
            end == SearchEnd::Exhausted ==> (cap is Some ==> visits.len() < cap->0 || visits.len()
                <= 1),
            cap is Some ==> visits.len() <= cap->0 || visits.len() <= 2,
            cap is None ==> end != SearchEnd::Capped,
            target is None ==> end != SearchEnd::Target,
        decreases list.len() - j,
    {
        let edge = &list[j];
        let next = if edge.from.same(&cur) {
            &edge.to
        } else {
            &edge.from
        };
        assert(next@ == other_end(*edge, cur@)@);
        let may_step = match allowed {
            Some(set) => set.contains(next),
            None => true,
        };
        let mut hit_target = false;
        if may_step && find_visit(visits, next).is_none() {
            let class = EdgeKindClass::from_kind(&edge.kind);
            let ghost before = visits@;
            let v = Visit { id: next.clone(), parent: head, class, depth: depth + 1 };
            proof {
                assert(links(edge@, cur@, next@));
                lemma_tree_grows(edges, may, start@, bound, before, head as int, v, edge@);
            }
            visits.push(v);
            proof {
                assert forall|p: int|
                    0 <= p < j && may.contains(other_end(#[trigger] list[p], cur@)@) implies found(
                    visits@,
                    other_end(list[p], cur@)@,
                ) by {
                    assert(found(before, other_end(list[p], cur@)@));
                }
            }
            hit_target = match target {
                Some(t) => t.same(next),
                None => false,
            };
        }
        if hit_target {
            end = SearchEnd::Target;
            break ;
        }
        let full = match cap {
            Some(c) => visits.len() >= c,
            None => false,
        };
        if full {
            end = SearchEnd::Capped;
            break ;
        }
        j += 1;
    }
    if end == SearchEnd::Exhausted {
        proof {
            assert forall|n: Seq<char>|
                may.contains(n) && #[trigger] joined_by(edges, cur@, n) implies found(visits@, n) by {
                let e = choose|e: EdgeView| #[trigger] edges.contains(e) && links(e, cur@, n);
                assert(incident(e, cur@));
                assert(has_edge(list@, e));
                let p = choose|p: int| 0 <= p < list@.len() && (#[trigger] list@[p])@ == e;
                assert(other_end(list[p], cur@)@ == n);
            }
            lemma_expanded_next(edges, may, start@, bound, visits@, head as int);
        }
    }
    end
}

/// Searches breadth first from `start`, over the edges of the model in
/// both directions, up to `max_depth` steps and onto allowed nodes only.
/// The search ends when nothing is left to find, when it finds `target`,
/// or when, after a node was looked at, it has found `cap` nodes.
pub fn search(
    model: &GraphModel,
    start: &NodeId,
    max_depth: usize,
    allowed: Option<&VecSet<NodeId>>,
    target: Option<&NodeId>,
    cap: Option<usize>,
) -> (r: (Vec<Visit>, SearchEnd))
    requires
        model.wf(),
    ensures
        r.0@.len() > 0,
        search_tree(model.edges_view(), allowed_set(allowed), start@, max_depth as nat, r.0@),
        target is Some && target->0@ != start@ ==> (r.1 == SearchEnd::Target <==> found(
            r.0@,
            target->0@,
        )),
        r.1 == SearchEnd::Target ==> target is Some && r.0@.last().id@ == target->0@,
        r.1 == SearchEnd::Exhausted ==> forall|n: Seq<char>|
            within(model.edges_view(), allowed_set(allowed), start@, max_depth as nat).contains(n) ==> found(
                r.0@,
                n,
            ),
        r.1 == SearchEnd::Capped ==> cap is Some && r.0@.len() >= cap->0,
        cap is Some ==> r.0@.len() <= cap->0 || r.0@.len() <= 2,
        cap is None ==> r.1 != SearchEnd::Capped,
        target is None ==> r.1 != SearchEnd::Target,
{
    let ghost edges = model.edges_view();
    let ghost may = allowed_set(allowed);
    let ghost bound = max_depth as nat;
    let mut visits: Vec<Visit> = Vec::new();
    visits.push(Visit { id: start.clone(), parent: 0, class: EdgeKindClass::Opens, depth: 0 });
    proof {
        lemma_tree_start(edges, may, start@, bound, visits@);
        if target is Some && target->0@ != start@ && found(visits@, target->0@) {
            let i = choose|i: int| 0 <= i < visits@.len() && (#[trigger] visits@[i]).id@ == target->0@;
            assert(false);
        }
    }
    let mut head: usize = 0;
    let mut end = SearchEnd::Exhausted;
    proof {
        model.lemma_invariants();
    }
    while head < visits.len()
        invariant_except_break
            head <= visits.len(),
            expanded(edges, may, bound, visits@, head as int),
            end == SearchEnd::Exhausted,
            head < visits.len() ==> forall|i: int|
                0 <= i < visits.len() ==> (#[trigger] visits[i]).depth <= visits[head as int].depth + 1,
            target is Some && target->0@ != start@ ==> !found(visits@, target->0@),
            cap is Some ==> visits.len() < cap->0 || visits.len() <= 1,
        invariant
            model.wf(),
            edges.finite(),
            visits.len() > 0,
            head <= universe(edges, start@).len(),
            edges == model.edges_view(),
            may == allowed_set(allowed),
            bound == max_depth as nat,
            search_tree(edges, may, start@, bound, visits@),
        ensures
            search_tree(edges, may, start@, bound, visits@),
            end == SearchEnd::Exhausted ==> expanded(edges, may, bound, visits@, visits.len() as int),
            target is Some && target->0@ != start@ ==> (end == SearchEnd::Target <==> found(
                visits@,
                target->0@,
            )),
            end == SearchEnd::Target ==> target is Some && visits@.last().id@ == target->0@,
            end == SearchEnd::Capped ==> cap is Some && visits.len() >= cap->0,
            cap is Some ==> visits.len() <= cap->0 || visits.len() <= 2,
            cap is None ==> end != SearchEnd::Capped,
            target is None ==> end != SearchEnd::Target,
        decreases universe(edges, start@).len() - head,
    {
        proof {
            lemma_visits_bounded(edges, may, start@, bound, visits@);
        }
        if visits[head].depth < max_depth {
            end = expand(model, &mut visits, head, start, max_depth, allowed, target, cap);
            if end != SearchEnd::Exhausted {
                break ;
            }
            let full = match cap {
                Some(c) => visits.len() >= c,
                None => false,
            };
            if full {
                end = SearchEnd::Capped;
                break ;
            }
        } else {
            proof {
                lemma_expanded_next(edges, may, start@, bound, visits@, head as int);
            }
        }
        head += 1;
    }
    proof {
        if end == SearchEnd::Exhausted {
            lemma_exhausted(edges, may, start@, bound, visits@);
        }
    }
    (visits, end)
}

} // verus!
