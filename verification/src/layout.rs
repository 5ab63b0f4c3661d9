//! What of the graph is shown: the filter, the visible set with its cap and
//! its focus, the counts of visible edges, and the order in which nodes are
//! given a place.

use vstd::prelude::*;
use crate::collections::{
    distinct_keys, has_key, key_set, lemma_key_set_len, position_of, Key, VecSet,
};
use crate::model::{AggKeyView, GraphModel};
use crate::state::ViewMode;
use crate::reach::{found, ids_of, lemma_tree_facts, search, within, SearchEnd};
use crate::state::GraphState;
use crate::text::{
    contains_text, has_part, lowercase, lowercase_of, lowest_by_text, sorted_by_text, text_lt, trim,
    trimmed, Text,
};
use crate::wire::{Edge, EdgeView, Node, NodeId};

verus! {

/// Whether the identifier of a node, or the text that describes it,
/// holds `needle` when put in lower case: the path of a file, the command
/// line or the executable of a process, the name of a user.
pub open spec fn node_matches(id: Seq<char>, node: Node, needle: Seq<char>) -> bool {
    has_part(lowercase_of(id), needle) || match node {
        Node::File { path, .. } => has_part(lowercase_of(path@), needle),
        Node::Process { cmdline, exe, .. } => has_part(lowercase_of(cmdline@), needle) || has_part(
            lowercase_of(exe@),
            needle,
        ),
        Node::User { name, .. } => has_part(lowercase_of(name@), needle),
    }
}

/// Whether a node passes a filter: a filter of white space passes all, and
/// any other passes the nodes that match it in lower case.
pub open spec fn passes(filter: Seq<char>, id: Seq<char>, node: Node) -> bool {
    trimmed(filter).len() == 0 || node_matches(id, node, lowercase_of(filter))
}

/// The nodes of a model that pass a filter.
pub open spec fn filtered(model: GraphModel, filter: Seq<char>) -> Set<Seq<char>> {
    Set::new(
        |id: Seq<char>| model.nodes_view().contains_key(id) && passes(filter, id, model.nodes_view()[id]),
    )
}

/// Whether `out` holds the `k` members of `pool` that come first in the
/// order of texts, or all of `pool` if it has no more.
pub open spec fn lowest_in(pool: Set<Seq<char>>, k: nat, out: Set<Seq<char>>) -> bool {
    &&& out.subset_of(pool)
    &&& out.len() == if pool.len() <= k {
        pool.len()
    } else {
        k
    }
    &&& forall|x: Seq<char>, y: Seq<char>|
        out.contains(x) && pool.contains(y) && !out.contains(y) ==> !text_lt(y, x)
}

/// What the search from the focus has reached: the focus and nodes within
/// `hops` steps of it, and all of those unless it has reached `cap` nodes.
pub open spec fn reached_ok(
    edges: Set<EdgeView>,
    focus: Seq<char>,
    hops: nat,
    cap: nat,
    reached: Set<Seq<char>>,
) -> bool {
    &&& reached.finite()
    &&& reached.contains(focus)
    &&& reached.subset_of(within(edges, Set::<Seq<char>>::full(), focus, hops))
    &&& reached == within(edges, Set::<Seq<char>>::full(), focus, hops) || reached.len() >= cap
}

/// The number of steps that the focus reaches: at least one.
pub open spec fn hops_of(st: GraphState) -> nat {
    if st.ui.focus_hops < 1 {
        1
    } else {
        st.ui.focus_hops as nat
    }
}

/// Whether `out` holds the focus and, of the rest of `pool`, as many as
/// the cap leaves room for, those that come first in the order of texts.
/// A cap of none leaves room for nothing.
pub open spec fn focus_first(pool: Set<Seq<char>>, focus: Seq<char>, cap: nat, out: Set<Seq<char>>) -> bool {
    if cap == 0 {
        out == Set::<Seq<char>>::empty()
    } else {
        out.contains(focus) && lowest_in(pool.remove(focus), (cap - 1) as nat, out.remove(focus))
    }
}

/// Whether `vis` is the visible set of a state. Without a focus it holds
/// the nodes that pass the filter, and of more than `max_visible_nodes`
/// those that come first by identifier. With a focus it holds the focus
/// and what the search from the focus has reached of the nodes that pass
/// the filter, cut to the cap by identifier with the focus kept.
pub open spec fn visible_of(st: GraphState, vis: Set<Seq<char>>) -> bool {
    let pass = filtered(st.model, st.ui.filter@);
    let cap = st.cfg.max_visible_nodes as nat;
    match st.ui.focus {
        None => lowest_in(pass, cap, vis),
        Some(f) => exists|reached: Set<Seq<char>>| #[trigger]
            reached_ok(st.model.edges_view(), f@, hops_of(st), cap, reached) && focus_first(
                reached.intersect(pass.insert(f@)),
                f@,
                cap,
                vis,
            ),
    }
}

/// The test that both endpoints of an edge are in `vis`.
pub open spec fn both_in(vis: Set<Seq<char>>) -> spec_fn(EdgeView) -> bool {
    |e: EdgeView| vis.contains(e.from) && vis.contains(e.to)
}

/// The test that both endpoints of an aggregation key are in `vis`.
pub open spec fn key_in(vis: Set<Seq<char>>) -> spec_fn(AggKeyView) -> bool {
    |k: AggKeyView| vis.contains(k.from) && vis.contains(k.to)
}

/// `a + b`, stopping at the largest number.
pub open spec fn sum_capped(a: usize, b: usize) -> usize {
    if a + b <= usize::MAX {
        (a + b) as usize
    } else {
        usize::MAX
    }
}

/// Whether a text holds `needle` when put in lower case.
fn holds(text: &str, needle: &str) -> (r: bool)
    ensures
        r == has_part(lowercase_of(text@), needle@),
{
    let low = lowercase(text);
    contains_text(low.as_str(), needle)
}

/// Whether a node or its identifier matches a needle in lower case.
pub fn matches_node(id: &NodeId, node: &Node, needle: &str) -> (r: bool)
    ensures
        r == node_matches(id@, *node, needle@),
{
    if holds(id.0.as_str(), needle) {
        return true;
    }
    match node {
        Node::File { path, .. } => holds(path.as_str(), needle),
        Node::Process { cmdline, exe, .. } => holds(cmdline.as_str(), needle) || holds(
            exe.as_str(),
            needle,
        ),
        Node::User { name, .. } => holds(name.as_str(), needle),
    }
}

/// Makes a set of distinct keys.
fn set_of(items: Vec<NodeId>) -> (s: VecSet<NodeId>)
    requires
        distinct_keys(items@),
    ensures
        s.wf(),
        s@ == key_set(items@),
        s@.finite(),
        s@.len() == items.len(),
{
    let mut s: VecSet<NodeId> = VecSet::new();
    let mut i: usize = 0;
    proof {
        assert(key_set(items@.take(0)) =~= Set::<Seq<char>>::empty());
    }
    while i < items.len()
        invariant
            i <= items.len(),
            s.wf(),
            s@ == key_set(items@.take(i as int)),
        decreases items.len() - i,
    {
        let ghost prev = items@.take(i as int);
        s.insert(items[i].clone());
        proof {
            assert(items@.take(i + 1) =~= prev.push(items@[i as int]));
            crate::housekeeping::lemma_key_set_push(prev, items@[i as int]);
        }
        i += 1;
    }
    proof {
        assert(items@.take(items.len() as int) =~= items@);
        lemma_key_set_len(items@);
    }
    s
}

/// Cuts a pool of distinct nodes down to the cap.
fn cap_pool(pool: Vec<NodeId>, cap: usize) -> (vis: VecSet<NodeId>)
    requires
        distinct_keys(pool@),
    ensures
        vis.wf(),
        vis@.finite(),
        vis@.len() <= cap,
        lowest_in(key_set(pool@), cap as nat, vis@),
{
    proof {
        lemma_key_set_len(pool@);
    }
    let ghost all = pool@;
    let kept = lowest_by_text(pool, cap);
    let ghost kept_seq = kept@;
    let vis = set_of(kept);
    proof {
        assert forall|x: Seq<char>, y: Seq<char>|
            vis@.contains(x) && key_set(all).contains(y) && !vis@.contains(y) implies !text_lt(y, x) by {
            let j = position_of(kept_seq, x);
            let i = position_of(all, y);
            assert(!has_key(kept_seq, all[i]@));
            assert(!text_lt(all[i].text(), kept_seq[j].text()));
        }
    }
    vis
}

impl GraphState {
    /// Whether a node passes the filter.
    pub fn passes_filter(&self, id: &NodeId, node: &Node) -> (r: bool)
        ensures
            r == passes(self.ui.filter@, id@, *node),
    {
        if trim(self.ui.filter.as_str()).is_empty() {
            return true;
        }
        let f = lowercase(self.ui.filter.as_str());
        matches_node(id, node, f.as_str())
    }

    /// The nodes that are shown, never more than `max_visible_nodes`, and
    /// the focus among them wherever the cap leaves room for one node.
    pub fn visible_set_capped(&self) -> (vis: VecSet<NodeId>)
        requires
            self.wf(),
        ensures
            vis.wf(),
            vis@.finite(),
            vis@.len() <= self.cfg.max_visible_nodes,
            visible_of(*self, vis@),
            self.ui.focus is Some && self.cfg.max_visible_nodes >= 1 ==> vis@.contains(self.ui.focus->0@),
    {
        let ghost pass = filtered(self.model, self.ui.filter@);
        let cap = self.cfg.max_visible_nodes;
        match &self.ui.focus {
            None => {
                let mut pool: Vec<NodeId> = Vec::new();
                let n = self.model.node_count();
                let ghost order = self.model.node_order();
                proof {
                    self.model.lemma_orders();
                }
                let mut i: usize = 0;
                while i < n
                    invariant
                        i <= n,
                        n == order.len(),
                        order == self.model.node_order(),
                        self.model.wf(),
                        distinct_keys(order),
                        key_set(order) == self.model.nodes_view().dom(),
                        pass == filtered(self.model, self.ui.filter@),
                        distinct_keys(pool@),
                        forall|q: Seq<char>|
                            has_key(pool@, q) <==> pass.contains(q) && has_key(order.take(i as int), q),
                    decreases n - i,
                {
                    let entry = self.model.node_at(i);
                    let ghost prev = order.take(i as int);
                    let ghost next = order.take(i + 1);
                    let keep = self.passes_filter(entry.0, entry.1);
                    proof {
                        assert(next =~= prev.push(order[i as int]));
                        crate::housekeeping::lemma_key_set_push(prev, order[i as int]);
                        assert(!has_key(prev, entry.0@)) by {
                            if has_key(prev, entry.0@) {
                                let p = position_of(prev, entry.0@);
                                assert(order[p]@ != order[i as int]@);
                            }
                        }
                        assert forall|q: Seq<char>| has_key(next, q) <==> has_key(prev, q) || q
                            == entry.0@ by {
                            assert(key_set(next).contains(q) <==> key_set(prev).insert(entry.0@).contains(q));
                        }
                        assert(keep == pass.contains(entry.0@));
                    }
                    if keep {
                        let ghost before = pool@;
                        pool.push(entry.0.clone());
                        proof {
                            crate::housekeeping::lemma_key_set_push(before, *entry.0);
                            assert forall|a: int, b: int| 0 <= a < b < pool@.len() implies (
                            #[trigger] pool@[a])@ != (#[trigger] pool@[b])@ by {
                                if b == before.len() {
                                    assert(before[a]@ == pool@[a]@);
                                    if before[a]@ == entry.0@ {
                                        assert(has_key(before, entry.0@));
                                    }
                                } else {
                                    assert(before[a]@ != before[b]@);
                                }
                            }
                            assert forall|q: Seq<char>|
                                has_key(pool@, q) <==> pass.contains(q) && has_key(next, q) by {
                                assert(key_set(pool@).contains(q) <==> key_set(before).insert(
                                    entry.0@,
                                ).contains(q));
                                assert(has_key(before, q) <==> pass.contains(q) && has_key(prev, q));
                            }
                        }
                    } else {
                        proof {
                            assert forall|q: Seq<char>|
                                has_key(pool@, q) <==> pass.contains(q) && has_key(next, q) by {
                                assert(has_key(pool@, q) <==> pass.contains(q) && has_key(prev, q));
                            }
                        }
                    }
                    i += 1;
                }
                proof {
                    assert(order.take(n as int) =~= order);
                    assert(key_set(pool@) =~= pass);
                }
                let vis = cap_pool(pool, cap);
                assert(lowest_in(pass, cap as nat, vis@));
                vis
            },
            Some(focus) => {
                let hops = if self.ui.focus_hops < 1 {
                    1
                } else {
                    self.ui.focus_hops
                };
                let ghost edges = self.model.edges_view();
                let ghost all = Set::<Seq<char>>::full();
                let (visits, end) = search(&self.model, focus, hops, None, None, Some(cap));
                let ghost ids = ids_of(visits@);
                let ghost reached = key_set(ids);
                proof {
                    assert(distinct_keys(ids)) by {
                        assert forall|a: int, b: int| 0 <= a < b < ids.len() implies (#[trigger] ids[a])@
                            != (#[trigger] ids[b])@ by {
                            lemma_tree_facts(edges, all, focus@, hops as nat, visits@, a);
                            assert(visits@[b].id@ != visits@[a].id@);
                        }
                    }
                    lemma_key_set_len(ids);
                    lemma_tree_facts(edges, all, focus@, hops as nat, visits@, 0);
                    assert(reached.contains(focus@)) by {
                        assert(ids[0]@ == focus@);
                    }
                    assert forall|q: Seq<char>| reached.contains(q) implies within(
                        edges,
                        all,
                        focus@,
                        hops as nat,
                    ).contains(q) by {
                        let p = position_of(ids, q);
                        lemma_tree_facts(edges, all, focus@, hops as nat, visits@, p);
                    }
                    if end == SearchEnd::Exhausted {
                        assert forall|q: Seq<char>|
                            within(edges, all, focus@, hops as nat).contains(q) implies reached.contains(
                            q,
                        ) by {
                            assert(found(visits@, q));
                            let p = choose|p: int| 0 <= p < visits@.len() && (#[trigger] visits@[p]).id@ == q;
                            assert(ids[p]@ == q);
                        }
                        assert(reached =~= within(edges, all, focus@, hops as nat));
                    }
                    assert(reached_ok(edges, focus@, hops as nat, cap as nat, reached));
                }
                let mut pool: Vec<NodeId> = Vec::new();
                let mut i: usize = 0;
                while i < visits.len()
                    invariant
                        i <= visits.len(),
                        self.model.wf(),
                        ids == ids_of(visits@),
                        distinct_keys(ids),
                        pass == filtered(self.model, self.ui.filter@),
                        distinct_keys(pool@),
                        forall|q: Seq<char>|
                            has_key(pool@, q) <==> pass.remove(focus@).contains(q) && has_key(
                                ids.take(i as int),
                                q,
                            ),
                    decreases visits.len() - i,
                {
                    let id = &visits[i].id;
                    let ghost prev = ids.take(i as int);
                    let ghost next = ids.take(i + 1);
                    let keep = if id.same(focus) {
                        false
                    } else {
                        match self.model.node(id) {
                            Some(node) => self.passes_filter(id, node),
                            None => false,
                        }
                    };
                    proof {
                        assert(ids[i as int] == *id);
                        assert(next =~= prev.push(ids[i as int]));
                        crate::housekeeping::lemma_key_set_push(prev, ids[i as int]);
                        assert(!has_key(prev, id@)) by {
                            if has_key(prev, id@) {
                                let p = position_of(prev, id@);
                                assert(ids[p]@ != ids[i as int]@);
                            }
                        }
                        assert forall|q: Seq<char>| has_key(next, q) <==> has_key(prev, q) || q == id@ by {
                            assert(key_set(next).contains(q) <==> key_set(prev).insert(id@).contains(q));
                        }
                        assert(keep == pass.remove(focus@).contains(id@));
                    }
                    let ghost before = pool@;
                    if keep {
                        pool.push(id.clone());
                    }
                    proof {
                        let target = pass.remove(focus@);
                        if keep {
                            assert(pool@ == before.push(*id));
                            crate::housekeeping::lemma_key_set_push(before, *id);
                            assert forall|a: int, b: int| 0 <= a < b < pool@.len() implies (
                            #[trigger] pool@[a])@ != (#[trigger] pool@[b])@ by {
                                if b == before.len() {
                                    assert(before[a]@ == pool@[a]@);
                                    if before[a]@ == id@ {
                                        assert(has_key(before, id@));
                                    }
                                } else {
                                    assert(before[a]@ != before[b]@);
                                }
                            }
                        }
                        assert forall|q: Seq<char>|
                            has_key(pool@, q) <==> target.contains(q) && has_key(next, q) by {
                            assert(has_key(before, q) <==> target.contains(q) && has_key(prev, q));
                            assert(has_key(next, q) <==> has_key(prev, q) || q == id@);
                            if keep {
                                assert(key_set(pool@).contains(q) <==> key_set(before).insert(id@).contains(
                                    q,
                                ));
                            }
                        }
                    }
                    i += 1;
                    assert(ids.take(i as int) == next);
                }
                proof {
                    assert(ids.take(visits.len() as int) =~= ids);
                    assert(key_set(pool@) =~= reached.intersect(pass.insert(focus@)).remove(focus@));
                    assert(hops as nat == hops_of(*self));
                }
                if cap == 0 {
                    let vis: VecSet<NodeId> = VecSet::new();
                    proof {
                        assert(reached_ok(self.model.edges_view(), focus@, hops_of(*self), cap as nat, reached)
                            && focus_first(reached.intersect(pass.insert(focus@)), focus@, cap as nat, vis@));
                    }
                    return vis;
                }
                let mut vis = cap_pool(pool, cap - 1);
                let ghost others = vis@;
                vis.insert(focus.clone());
                proof {
                    vis.lemma_len();
                    assert(!others.contains(focus@));
                    assert(vis@.remove(focus@) =~= others);
                    assert(reached_ok(self.model.edges_view(), focus@, hops_of(*self), cap as nat, reached)
                        && focus_first(reached.intersect(pass.insert(focus@)), focus@, cap as nat, vis@));
                }
                vis
            },
        }
    }

    /// Whether both endpoints of an edge are shown.
    pub fn edge_visible(&self, e: &Edge, vis: &VecSet<NodeId>) -> (r: bool)
        ensures
            r == both_in(vis@)(e@),
    {
        vis.contains(&e.from) && vis.contains(&e.to)
    }

    /// Notes how many nodes and edges are shown; the count of all edges is
    /// the sum of raw and aggregated edges, stopping at the largest number.
    pub fn set_visible_counts(&mut self, vis_nodes: usize, raw_edges: usize, agg_edges: usize)
        ensures
            final(self).perf.visible_nodes == vis_nodes,
            final(self).perf.visible_raw_edges == raw_edges,
            final(self).perf.visible_agg_edges == agg_edges,
            final(self).perf.visible_edges == sum_capped(raw_edges, agg_edges),
            final(self).perf.event_total == old(self).perf.event_total,
            final(self).perf.ev_window == old(self).perf.ev_window,
            final(self).perf.gc_last_run == old(self).perf.gc_last_run,
            final(self).model == old(self).model,
            final(self).spatial == old(self).spatial,
            final(self).timeline == old(self).timeline,
            final(self).ui == old(self).ui,
            final(self).cfg == old(self).cfg,
            final(self).explain_cache == old(self).explain_cache,
            final(self).needs_redraw == old(self).needs_redraw,
    {
        self.perf.visible_nodes = vis_nodes;
        self.perf.visible_raw_edges = raw_edges;
        self.perf.visible_agg_edges = agg_edges;
        self.perf.visible_edges = if raw_edges <= usize::MAX - agg_edges {
            raw_edges + agg_edges
        } else {
            usize::MAX
        };
    }
}

/// One more member adds one to the count of the members that meet a test,
/// if it meets the test, and nothing if it does not.
pub proof fn lemma_count_insert<A>(s: Set<A>, x: A, test: spec_fn(A) -> bool)
    requires
        s.finite(),
        !s.contains(x),
    ensures
        s.filter(test).finite(),
        s.insert(x).filter(test).len() == s.filter(test).len() + if test(x) {
            1nat
        } else {
            0nat
        },
{
    s.lemma_len_filter(test);
    if test(x) {
        assert(s.insert(x).filter(test) =~= s.filter(test).insert(x));
    } else {
        assert(s.insert(x).filter(test) =~= s.filter(test));
    }
}

/// The ids that are to be given a place in one frame, by kind of node,
/// and all ids that the frame has reached.
pub struct Placement {
    pub processes: Vec<NodeId>,
    pub files: Vec<NodeId>,
    pub users: Vec<NodeId>,
    pub reached: Vec<NodeId>,
}

/// The kinds of node.
#[derive(Debug, Clone, Copy, PartialEq, Eq, Structural)]
pub enum NodeKind {
    Process,
    File,
    User,
}

/// The kind of a node.
pub open spec fn kind_of(node: Node) -> NodeKind {
    match node {
        Node::Process { .. } => NodeKind::Process,
        Node::File { .. } => NodeKind::File,
        Node::User { .. } => NodeKind::User,
    }
}

/// The test that a node of the kind `kind` exists under an id and has no
/// place yet.
pub open spec fn wants_place(
    placed: Set<Seq<char>>,
    nodes: Map<Seq<char>, Node>,
    kind: NodeKind,
) -> spec_fn(NodeId) -> bool {
    |id: NodeId| !placed.contains(id@) && nodes.contains_key(id@) && kind_of(nodes[id@]) == kind
}

/// Whether the cache of visible nodes is built anew.
pub open spec fn rebuilds(st: GraphState) -> bool {
    st.spatial.active_vis_cache@.len() == 0 || st.spatial.dirty_layout
}

/// Where a frame starts in the cache.
pub open spec fn frame_start(st: GraphState) -> int {
    if rebuilds(st) {
        0
    } else if st.spatial.progressive_cursor <= st.spatial.active_vis_cache@.len() {
        st.spatial.progressive_cursor as int
    } else {
        st.spatial.active_vis_cache@.len() as int
    }
}

/// Where a frame ends in a cache of `len` nodes that it enters at `start`:
/// `progressive_nodes_per_frame` nodes on, and at least one, or at the
/// end of the cache.
pub open spec fn frame_end(st: GraphState, start: int, len: int) -> int {
    let take = if st.cfg.progressive_nodes_per_frame < 1 {
        1
    } else {
        st.cfg.progressive_nodes_per_frame as int
    };
    if start + take <= len {
        start + take
    } else {
        len
    }
}

/// What one frame of placing makes of the state, for the visible set
/// `vis`: the cache lists `vis` by identifier if it was built anew; the
/// frame reaches the next nodes of the cache; of those, the nodes that
/// exist and have no place are handed out by kind and count as placed;
/// the layout is clean once the end of the cache is reached; a redraw is due.
pub open spec fn placed_frame(pre: GraphState, vis: Set<Seq<char>>, post: GraphState, plan: Placement) -> bool {
    let cache = post.spatial.active_vis_cache@;
    let start = frame_start(pre);
    let end = frame_end(pre, start, cache.len() as int);
    let nodes = pre.model.nodes_view();
    let placed = pre.spatial.placed@;
    &&& if rebuilds(pre) {
        sorted_by_text(cache) && distinct_keys(cache) && key_set(cache) == vis
    } else {
        cache == pre.spatial.active_vis_cache@
    }
    &&& 0 <= start <= end <= cache.len()
    &&& plan.reached@ == cache.subrange(start, end)
    &&& plan.processes@ == plan.reached@.filter(wants_place(placed, nodes, NodeKind::Process))
    &&& plan.files@ == plan.reached@.filter(wants_place(placed, nodes, NodeKind::File))
    &&& plan.users@ == plan.reached@.filter(wants_place(placed, nodes, NodeKind::User))
    &&& post.spatial.placed@ == placed.union(key_set(plan.processes@)).union(key_set(plan.files@)).union(
        key_set(plan.users@),
    )
    &&& post.spatial.progressive_cursor == end
    &&& post.spatial.dirty_layout == (pre.spatial.dirty_layout && end < cache.len())
    &&& post.needs_redraw
    &&& post.spatial.in_batch == pre.spatial.in_batch
    &&& post.spatial.touched_nodes == pre.spatial.touched_nodes
    &&& post.spatial.touched_edges == pre.spatial.touched_edges
    &&& post.spatial.glow_nodes == pre.spatial.glow_nodes
    &&& post.spatial.glow_edges == pre.spatial.glow_edges
    &&& post.spatial.last_batch_id == pre.spatial.last_batch_id
    &&& post.model == pre.model
    &&& post.timeline == pre.timeline
    &&& post.ui == pre.ui
    &&& post.perf == pre.perf
    &&& post.cfg == pre.cfg
    &&& post.explain_cache == pre.explain_cache
}

/// Marks the given ids as placed.
fn mark_placed(placed: &mut VecSet<NodeId>, ids: &Vec<NodeId>)
    requires
        old(placed).wf(),
    ensures
        final(placed).wf(),
        final(placed)@ == old(placed)@.union(key_set(ids@)),
{
    let mut i: usize = 0;
    proof {
        assert(key_set(ids@.take(0)) =~= Set::<Seq<char>>::empty());
        assert(placed@ =~= old(placed)@.union(key_set(ids@.take(0))));
    }
    while i < ids.len()
        invariant
            i <= ids.len(),
            placed.wf(),
            placed@ == old(placed)@.union(key_set(ids@.take(i as int))),
        decreases ids.len() - i,
    {
        let ghost prev = ids@.take(i as int);
        placed.insert(ids[i].clone());
        proof {
            assert(ids@.take(i + 1) =~= prev.push(ids@[i as int]));
            crate::housekeeping::lemma_key_set_push(prev, ids@[i as int]);
            assert(placed@ =~= old(placed)@.union(key_set(ids@.take(i + 1))));
        }
        i += 1;
    }
    proof {
        assert(ids@.take(ids.len() as int) =~= ids@);
    }
}

impl GraphState {
    /// How many raw edges and how many aggregated edges have both endpoints
    /// in `vis`.
    pub fn visible_edge_counts(&self, vis: &VecSet<NodeId>) -> (counts: (usize, usize))
        requires
            self.wf(),
        ensures
            counts.0 == self.model.edges_view().filter(both_in(vis@)).len(),
            counts.1 == self.model.agg_view().dom().filter(key_in(vis@)).len(),
    {
        proof {
            self.model.lemma_orders();
        }
        let ghost edges = self.model.edge_order();
        let ghost raw_test = both_in(vis@);
        let n = self.model.edge_count();
        let mut raw: usize = 0;
        let mut i: usize = 0;
        proof {
            assert(key_set(edges.take(0)) =~= Set::<EdgeView>::empty());
            assert(key_set(edges.take(0)).filter(raw_test) =~= Set::<EdgeView>::empty());
        }
        while i < n
            invariant
                i <= n,
                n == edges.len(),
                edges == self.model.edge_order(),
                self.model.wf(),
                distinct_keys(edges),
                raw_test == both_in(vis@),
                raw <= i,
                raw == key_set(edges.take(i as int)).filter(raw_test).len(),
            decreases n - i,
        {
            let edge = self.model.edge_at(i);
            let ghost prev = edges.take(i as int);
            proof {
                assert(edges.take(i + 1) =~= prev.push(edges[i as int]));
                crate::housekeeping::lemma_key_set_push(prev, edges[i as int]);
                assert(distinct_keys(prev)) by {
                    assert forall|a: int, b: int| 0 <= a < b < prev.len() implies (#[trigger] prev[a])@
                        != (#[trigger] prev[b])@ by {
                        assert(edges[a]@ != edges[b]@);
                    }
                }
                lemma_key_set_len(prev);
                assert(!key_set(prev).contains(edge@)) by {
                    if has_key(prev, edge@) {
                        let p = position_of(prev, edge@);
                        assert(edges[p]@ != edges[i as int]@);
                    }
                }
                lemma_count_insert(key_set(prev), edge@, raw_test);
            }
            if self.edge_visible(edge, vis) {
                raw += 1;
            }
            i += 1;
        }
        proof {
            assert(edges.take(n as int) =~= edges);
        }
        let ghost keys = self.model.agg_order();
        let ghost agg_test = key_in(vis@);
        let m = self.model.agg_edge_count();
        let mut agg: usize = 0;
        let mut j: usize = 0;
        proof {
            assert(key_set(keys.take(0)) =~= Set::<AggKeyView>::empty());
            assert(key_set(keys.take(0)).filter(agg_test) =~= Set::<AggKeyView>::empty());
        }
        while j < m
            invariant
                j <= m,
                m == keys.len(),
                keys == self.model.agg_order(),
                self.model.wf(),
                distinct_keys(keys),
                agg_test == key_in(vis@),
                agg <= j,
                agg == key_set(keys.take(j as int)).filter(agg_test).len(),
            decreases m - j,
        {
            let entry = self.model.agg_at(j);
            let ghost prev = keys.take(j as int);
            proof {
                assert(keys.take(j + 1) =~= prev.push(keys[j as int]));
                crate::housekeeping::lemma_key_set_push(prev, keys[j as int]);
                assert(distinct_keys(prev)) by {
                    assert forall|a: int, b: int| 0 <= a < b < prev.len() implies (#[trigger] prev[a])@
                        != (#[trigger] prev[b])@ by {
                        assert(keys[a]@ != keys[b]@);
                    }
                }
                lemma_key_set_len(prev);
                assert(!key_set(prev).contains(entry.key@)) by {
                    if has_key(prev, entry.key@) {
                        let p = position_of(prev, entry.key@);
                        assert(keys[p]@ != keys[j as int]@);
                    }
                }
                lemma_count_insert(key_set(prev), entry.key@, agg_test);
            }
            if vis.contains(&entry.key.from) && vis.contains(&entry.key.to) {
                agg += 1;
            }
            j += 1;
        }
        proof {
            assert(keys.take(m as int) =~= keys);
        }
        (raw, agg)
    }

    /// One frame of placing: reaches the next nodes of the cache of
    /// visible nodes, which is built anew if it is empty or the layout
    /// dirty, and hands out by kind those that have no place yet.
    pub fn progressive_prepare(&mut self, vis: &VecSet<NodeId>) -> (plan: Placement)
        requires
            old(self).wf(),
            vis.wf(),
        ensures
            final(self).wf(),
            placed_frame(*old(self), vis@, *final(self), plan),
    {
        let rebuild = self.spatial.active_vis_cache.len() == 0 || self.spatial.dirty_layout;
        if rebuild {
            let mut items: Vec<NodeId> = Vec::new();
            let n = vis.len();
            let mut i: usize = 0;
            while i < n
                invariant
                    i <= n,
                    n == vis.items().len(),
                    items.len() == i,
                    forall|j: int| 0 <= j < i ==> (#[trigger] items[j])@ == vis.items()[j]@,
                decreases n - i,
            {
                items.push(vis.item_at(i).clone());
                i += 1;
            }
            proof {
                assert forall|a: int, b: int| 0 <= a < b < items.len() implies (#[trigger] items[a])@
                    != (#[trigger] items[b])@ by {
                    assert(vis.items()[a]@ != vis.items()[b]@);
                }
                assert(key_set(items@) =~= vis@) by {
                    assert forall|q: Seq<char>| key_set(items@).contains(q) <==> vis@.contains(q) by {
                        if has_key(items@, q) {
                            let p = position_of(items@, q);
                            assert(vis.items()[p]@ == q);
                        }
                        if has_key(vis.items(), q) {
                            let p = position_of(vis.items(), q);
                            assert(items@[p]@ == q);
                        }
                    }
                }
            }
            self.spatial.active_vis_cache = lowest_by_text(items, n);
            self.spatial.progressive_cursor = 0;
        }
        let len = self.spatial.active_vis_cache.len();
        let take = if self.cfg.progressive_nodes_per_frame < 1 {
            1
        } else {
            self.cfg.progressive_nodes_per_frame
        };
        let start = if self.spatial.progressive_cursor <= len {
            self.spatial.progressive_cursor
        } else {
            len
        };
        let end = if take <= len - start {
            start + take
        } else {
            len
        };
        let ghost cache = self.spatial.active_vis_cache@;
        let ghost nodes = self.model.nodes_view();
        let ghost placed = self.spatial.placed@;
        let ghost want_p = wants_place(placed, nodes, NodeKind::Process);
        let ghost want_f = wants_place(placed, nodes, NodeKind::File);
        let ghost want_u = wants_place(placed, nodes, NodeKind::User);
        let mut processes: Vec<NodeId> = Vec::new();
        let mut files: Vec<NodeId> = Vec::new();
        let mut users: Vec<NodeId> = Vec::new();
        let mut reached: Vec<NodeId> = Vec::new();
        let mut k: usize = start;
        proof {
            assert(cache.subrange(start as int, start as int) =~= Seq::<NodeId>::empty());
            reveal(Seq::filter);
            assert(reached@.filter(want_p) =~= Seq::<NodeId>::empty());
            assert(reached@.filter(want_f) =~= Seq::<NodeId>::empty());
            assert(reached@.filter(want_u) =~= Seq::<NodeId>::empty());
        }
        while k < end
            invariant
                start <= k <= end <= len,
                len == cache.len(),
                cache == self.spatial.active_vis_cache@,
                nodes == self.model.nodes_view(),
                placed == self.spatial.placed@,
                self.wf(),
                want_p == wants_place(placed, nodes, NodeKind::Process),
                want_f == wants_place(placed, nodes, NodeKind::File),
                want_u == wants_place(placed, nodes, NodeKind::User),
                reached@ == cache.subrange(start as int, k as int),
                processes@ == reached@.filter(want_p),
                files@ == reached@.filter(want_f),
                users@ == reached@.filter(want_u),
            decreases end - k,
        {
            let id = &self.spatial.active_vis_cache[k];
            let ghost before = reached@;
            reached.push(id.clone());
            proof {
                assert(reached@ =~= cache.subrange(start as int, k + 1));
                before.lemma_filter_push(*id, want_p);
                before.lemma_filter_push(*id, want_f);
                before.lemma_filter_push(*id, want_u);
            }
            if !self.spatial.placed.contains(id) {
                match self.model.node(id) {
                    Some(node) => {
                        match node {
                            Node::Process { .. } => {
                                processes.push(id.clone());
                            },
                            Node::File { .. } => {
                                files.push(id.clone());
                            },
                            Node::User { .. } => {
                                users.push(id.clone());
                            },
                        }
                    },
                    None => {},
                }
            }
            k += 1;
        }
        mark_placed(&mut self.spatial.placed, &processes);
        mark_placed(&mut self.spatial.placed, &files);
        mark_placed(&mut self.spatial.placed, &users);
        self.spatial.progressive_cursor = end;
        if end >= len {
            self.spatial.dirty_layout = false;
        }
        self.needs_redraw = true;
        Placement { processes, files, users, reached }
    }

    /// The work of one frame on what is shown: the visible set and the
    /// counts of what is shown and, in the spatial view, one frame of placing.
    pub fn update_layout_or_timeline(&mut self) -> (r: (VecSet<NodeId>, Option<Placement>))
        requires
            old(self).wf(),
        ensures
            final(self).wf(),
            r.0.wf(),
            r.0@.len() <= old(self).cfg.max_visible_nodes,
            visible_of(*old(self), r.0@),
            final(self).perf.visible_nodes == r.0@.len(),
            final(self).perf.visible_raw_edges == old(self).model.edges_view().filter(both_in(r.0@)).len(),
            final(self).perf.visible_agg_edges == old(self).model.agg_view().dom().filter(
                key_in(r.0@),
            ).len(),
            final(self).model == old(self).model,
            final(self).cfg == old(self).cfg,
            final(self).ui == old(self).ui,
            final(self).timeline == old(self).timeline,
            (r.1 is Some) == (old(self).ui.view_mode == ViewMode::Spatial),
            r.1 is Some ==> exists|counted: GraphState| #[trigger]
                placed_frame(counted, r.0@, *final(self), r.1->0) && counted.spatial == old(self).spatial && counted.needs_redraw == old(self).needs_redraw,
            r.1 is None ==> final(self).spatial == old(self).spatial && final(self).needs_redraw == old(self).needs_redraw,
    {
        let vis = self.visible_set_capped();
        let counts = self.visible_edge_counts(&vis);
        self.set_visible_counts(vis.len(), counts.0, counts.1);
        let ghost counted = *self;
        let plan = match self.ui.view_mode {
            ViewMode::Spatial => Some(self.progressive_prepare(&vis)),
            ViewMode::Timeline => None,
        };
        proof {
            if plan is Some {
                assert(placed_frame(counted, vis@, *self, plan->0) && counted.spatial == old(self).spatial
                    && counted.needs_redraw == old(self).needs_redraw);
            }
        }
        (vis, plan)
    }
}

} // verus!
