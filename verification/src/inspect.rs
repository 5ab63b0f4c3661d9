//! What the user asks of the state: search hits, jumps, glows, labels and
//! the explanation of how two nodes are connected.

use vstd::prelude::*;
use crate::collections::{distinct_keys, has_key, key_set, position_of, Key, VecSet};
use crate::explain::{shortest, shortest_path, PathStep};
use crate::housekeeping::{age, lemma_key_set_push};
use crate::labels::{lines_of, long_label, node_label_long, node_label_short, short_label};
use crate::layout::{matches_node, node_matches};
use crate::state::{ExplainCache, GraphState};
use crate::text::{
    lowercase, lowercase_of, lowest_by_text, push_str, sorted_by_text, string_of, text_lt, trim,
    trimmed, Text,
};
use crate::model::{edge_explain, edge_kind_name, kind_explanation, kind_name};
use crate::wire::{Edge, EdgeView, Node, NodeId};

verus! {

/// How long an explanation is kept.
pub const EXPLAIN_TTL: u64 = 200;

/// What is searched for: the query without white space around it, in
/// lower case.
pub open spec fn needle_of(query: Seq<char>) -> Seq<char> {
    lowercase_of(trimmed(query))
}

/// The nodes of a state that match its search query.
pub open spec fn matching(st: GraphState) -> Set<Seq<char>> {
    Set::new(
        |id: Seq<char>|
            st.model.nodes_view().contains_key(id) && node_matches(
                id,
                st.model.nodes_view()[id],
                needle_of(st.ui.search_query@),
            ),
    )
}

/// The most hits that a search with the limit `limit` gives: at least one.
pub open spec fn hit_cap(limit: usize) -> nat {
    if limit < 1 {
        1
    } else {
        limit as nat
    }
}

/// Whether `hits` are the hits of a search: none for an empty query, and
/// else the matching nodes that come first by identifier, in that order,
/// as many as the limit allows.
pub open spec fn hits_of(st: GraphState, limit: usize, hits: Seq<NodeId>) -> bool {
    if needle_of(st.ui.search_query@).len() == 0 {
        hits.len() == 0
    } else {
        &&& distinct_keys(hits)
        &&& sorted_by_text(hits)
        &&& key_set(hits).subset_of(matching(st))
        &&& hits.len() == if matching(st).len() <= hit_cap(limit) {
            matching(st).len()
        } else {
            hit_cap(limit)
        }
        &&& forall|y: Seq<char>, j: int|
            #![trigger matching(st).contains(y), hits[j]]
            matching(st).contains(y) && !has_key(hits, y) && 0 <= j < hits.len() ==> !text_lt(y, hits[j]@)
    }
}

/// The label of a node with its identifier: `label (id)`, or the
/// identifier alone where the node is not known.
pub open spec fn label_with_id(nodes: Map<Seq<char>, Node>, id: Seq<char>) -> Seq<char> {
    if nodes.contains_key(id) {
        short_label(nodes[id]) + " ("@ + id + ")"@
    } else {
        id
    }
}

/// What is said of an edge: `from -> to : kind (what the kind means)`.
pub open spec fn edge_text(e: EdgeView) -> Seq<char> {
    e.from + " -> "@ + e.to + " : "@ + kind_name(e.kind) + " ("@ + kind_explanation(e.kind) + ")"@
}

/// The lines of the tooltip of a node: its label with its identifier, then
/// the lines that describe it; the identifier alone for an unknown node.
pub open spec fn tooltip(nodes: Map<Seq<char>, Node>, id: Seq<char>) -> Seq<Seq<char>> {
    if nodes.contains_key(id) {
        seq![label_with_id(nodes, id)] + long_label(nodes[id])
    } else {
        seq![id]
    }
}

/// Whether two choices of a node are the same choice.
pub open spec fn same_choice(a: Option<NodeId>, b: Option<NodeId>) -> bool {
    match (a, b) {
        (Some(x), Some(y)) => x@ == y@,
        (None, None) => true,
        _ => false,
    }
}

/// Whether the cached explanation answers a question for the path from
/// `a` to `b` at `now`: it is for these two nodes and this focus, and no
/// older than the time an explanation is kept.
pub open spec fn cache_answers(st: GraphState, a: Seq<char>, b: Seq<char>, now: u64) -> bool {
    match st.explain_cache {
        Some(c) => c.a@ == a && c.b@ == b && same_choice(c.focus, st.ui.focus) && age(now, c.ts)
            <= EXPLAIN_TTL,
        None => false,
    }
}

/// The depth bound of an explanation: at least one step.
pub open spec fn explain_depth(st: GraphState) -> nat {
    if st.cfg.explain_max_depth < 1 {
        1
    } else {
        st.cfg.explain_max_depth as nat
    }
}

/// The steps of an optional path.
pub open spec fn steps_of(r: Option<Vec<PathStep>>) -> Option<Seq<PathStep>> {
    match r {
        Some(path) => Some(path@),
        None => None,
    }
}

fn copy_steps(path: &Option<Vec<PathStep>>) -> (r: Option<Vec<PathStep>>)
    ensures
        steps_of(r) == steps_of(*path),
{
    match path {
        None => None,
        Some(steps) => {
            let mut out: Vec<PathStep> = Vec::new();
            let mut i: usize = 0;
            while i < steps.len()
                invariant
                    i <= steps.len(),
                    out@ == steps@.take(i as int),
                decreases steps.len() - i,
            {
                out.push(steps[i].clone());
                i += 1;
                assert(steps@.take(i as int) =~= steps@.take(i - 1).push(steps@[i - 1]));
            }
            assert(steps@.take(steps.len() as int) =~= steps@);
            Some(out)
        },
    }
}

fn same_option(a: &Option<NodeId>, b: &Option<NodeId>) -> (r: bool)
    ensures
        r == same_choice(*a, *b),
{
    match a {
        Some(x) => match b {
            Some(y) => x.same(y),
            None => false,
        },
        None => match b {
            Some(_) => false,
            None => true,
        },
    }
}

fn copy_option(a: &Option<NodeId>) -> (r: Option<NodeId>)
    ensures
        r == *a,
{
    match a {
        Some(x) => Some(x.clone()),
        None => None,
    }
}

impl GraphState {
    /// The label of a node with its identifier.
    pub fn node_label_with_id(&self, id: &NodeId) -> (label: String)
        requires
            self.wf(),
        ensures
            label@ == label_with_id(self.model.nodes_view(), id@),
    {
        match self.model.node(id) {
            Some(n) => {
                let mut out: Vec<char> = Vec::new();
                let short = node_label_short(n);
                push_str(&mut out, short.as_str());
                push_str(&mut out, " (");
                push_str(&mut out, id.0.as_str());
                push_str(&mut out, ")");
                string_of(&out)
            },
            None => id.0.clone(),
        }
    }

    /// The lines of the tooltip of a node.
    pub fn node_tooltip_lines(&self, id: &NodeId) -> (lines: Vec<String>)
        requires
            self.wf(),
        ensures
            lines_of(lines@) == tooltip(self.model.nodes_view(), id@),
    {
        match self.model.node(id) {
            None => {
                let mut out: Vec<String> = Vec::new();
                out.push(id.0.clone());
                assert(lines_of(out@) =~= seq![id@]);
                out
            },
            Some(n) => {
                let mut out: Vec<String> = Vec::new();
                out.push(self.node_label_with_id(id));
                let long = node_label_long(n);
                let ghost first = out@;
                let mut i: usize = 0;
                while i < long.len()
                    invariant
                        i <= long.len(),
                        lines_of(out@) == lines_of(first) + lines_of(long@).take(i as int),
                    decreases long.len() - i,
                {
                    let ghost prev = out@;
                    out.push(long[i].clone());
                    i += 1;
                    assert(lines_of(out@) =~= lines_of(prev).push(long@[i - 1]@));
                    assert(lines_of(long@).take(i as int) =~= lines_of(long@).take(i - 1).push(
                        long@[i - 1]@,
                    ));
                    assert(lines_of(out@) =~= lines_of(first) + lines_of(long@).take(i as int));
                }
                assert(lines_of(long@).take(long.len() as int) =~= lines_of(long@));
                assert(lines_of(first) =~= seq![label_with_id(self.model.nodes_view(), id@)]);
                out
            },
        }
    }

    /// Finds the nodes that match the search query, by identifier or by
    /// what describes them, and keeps the first `limit` by identifier, and
    /// one for a limit of none.
    pub fn recompute_search_hits(&mut self, limit: usize)
        requires
            old(self).wf(),
        ensures
            final(self).wf(),
            hits_of(*old(self), limit, final(self).ui.search_hits@),
            final(self).ui.filter == old(self).ui.filter,
            final(self).ui.show_3d == old(self).ui.show_3d,
            final(self).ui.show_edges == old(self).ui.show_edges,
            final(self).ui.focus == old(self).ui.focus,
            final(self).ui.focus_hops == old(self).ui.focus_hops,
            final(self).ui.hovered == old(self).ui.hovered,
            final(self).ui.selected == old(self).ui.selected,
            final(self).ui.selected_a == old(self).ui.selected_a,
            final(self).ui.selected_b == old(self).ui.selected_b,
            final(self).ui.search_open == old(self).ui.search_open,
            final(self).ui.search_query == old(self).ui.search_query,
            final(self).ui.jump_to == old(self).ui.jump_to,
            final(self).ui.view_mode == old(self).ui.view_mode,
            final(self).model == old(self).model,
            final(self).spatial == old(self).spatial,
            final(self).timeline == old(self).timeline,
            final(self).perf == old(self).perf,
            final(self).cfg == old(self).cfg,
            final(self).explain_cache == old(self).explain_cache,
            final(self).needs_redraw == old(self).needs_redraw,
    {
        self.ui.search_hits.clear();
        let q = lowercase(trim(self.ui.search_query.as_str()));
        if q.as_str().unicode_len() == 0 {
            return ;
        }
        let ghost found = matching(*self);
        let mut pool: Vec<NodeId> = Vec::new();
        let n = self.model.node_count();
        let ghost order = self.model.node_order();
        proof {
            self.model.lemma_orders();
        }
        let mut i: usize = 0;
        while i < n
            invariant
                i <= n,
                n == order.len(),
                order == self.model.node_order(),
                self.model.wf(),
                distinct_keys(order),
                key_set(order) == self.model.nodes_view().dom(),
                q@ == needle_of(self.ui.search_query@),
                found == matching(*self),
                distinct_keys(pool@),
                forall|k: Seq<char>|
                    has_key(pool@, k) <==> found.contains(k) && has_key(order.take(i as int), k),
            decreases n - i,
        {
            let entry = self.model.node_at(i);
            let ghost prev = order.take(i as int);
            let ghost next = order.take(i + 1);
            let keep = matches_node(entry.0, entry.1, q.as_str());
            let ghost before = pool@;
            if keep {
                pool.push(entry.0.clone());
            }
            proof {
                assert(next =~= prev.push(order[i as int]));
                lemma_key_set_push(prev, order[i as int]);
                assert(!has_key(prev, entry.0@)) by {
                    if has_key(prev, entry.0@) {
                        let p = position_of(prev, entry.0@);
                        assert(order[p]@ != order[i as int]@);
                    }
                }
                assert(keep == found.contains(entry.0@));
                if keep {
                    assert(pool@ == before.push(*entry.0));
                    lemma_key_set_push(before, *entry.0);
                    assert forall|a: int, b: int| 0 <= a < b < pool@.len() implies (#[trigger] pool@[a])@
                        != (#[trigger] pool@[b])@ by {
                        if b == before.len() {
                            assert(before[a]@ == pool@[a]@);
                            if before[a]@ == entry.0@ {
                                assert(has_key(before, entry.0@));
                            }
                        } else {
                            assert(before[a]@ != before[b]@);
                        }
                    }
                }
                assert forall|k: Seq<char>|
                    has_key(pool@, k) <==> found.contains(k) && has_key(next, k) by {
                    assert(has_key(before, k) <==> found.contains(k) && has_key(prev, k));
                    assert(key_set(next).contains(k) <==> key_set(prev).insert(entry.0@).contains(k));
                    if keep {
                        assert(key_set(pool@).contains(k) <==> key_set(before).insert(entry.0@).contains(
                            k,
                        ));
                    }
                }
            }
            i += 1;
        }
        let ghost all = pool@;
        proof {
            assert(order.take(n as int) =~= order);
            assert(key_set(all) =~= found);
            crate::collections::lemma_key_set_len(all);
        }
        let cap = if limit < 1 {
            1
        } else {
            limit
        };
        let hits = lowest_by_text(pool, cap);
        proof {
            assert forall|y: Seq<char>, j: int|
                #![trigger found.contains(y), hits@[j]]
                found.contains(y) && !has_key(hits@, y) && 0 <= j < hits.len() implies !text_lt(
                y,
                hits@[j]@,
            ) by {
                let p = position_of(all, y);
                assert(!has_key(hits@, all[p]@));
                assert(!text_lt(all[p].text(), hits[j].text()));
            }
        }
        self.ui.search_hits = hits;
    }

    /// What is said of an edge: its endpoints, the name of its kind, and
    /// what the kind means.
    pub fn explain_edge(&self, e: &Edge) -> (text: String)
        ensures
            text@ == edge_text(e@),
    {
        let mut out: Vec<char> = Vec::new();
        push_str(&mut out, e.from.0.as_str());
        push_str(&mut out, " -> ");
        push_str(&mut out, e.to.0.as_str());
        push_str(&mut out, " : ");
        push_str(&mut out, edge_kind_name(&e.kind));
        push_str(&mut out, " (");
        let meaning = edge_explain(&e.kind);
        push_str(&mut out, meaning.as_str());
        push_str(&mut out, ")");
        string_of(&out)
    }

    /// Asks the view to jump to a node.
    pub fn request_jump(&mut self, id: NodeId)
        ensures
            final(self).ui.jump_to == Some(id),
            final(self).ui.filter == old(self).ui.filter,
            final(self).ui.show_3d == old(self).ui.show_3d,
            final(self).ui.show_edges == old(self).ui.show_edges,
            final(self).ui.focus == old(self).ui.focus,
            final(self).ui.focus_hops == old(self).ui.focus_hops,
            final(self).ui.hovered == old(self).ui.hovered,
            final(self).ui.selected == old(self).ui.selected,
            final(self).ui.selected_a == old(self).ui.selected_a,
            final(self).ui.selected_b == old(self).ui.selected_b,
            final(self).ui.search_open == old(self).ui.search_open,
            final(self).ui.search_query == old(self).ui.search_query,
            final(self).ui.search_hits == old(self).ui.search_hits,
            final(self).ui.view_mode == old(self).ui.view_mode,
            final(self).model == old(self).model,
            final(self).spatial == old(self).spatial,
            final(self).timeline == old(self).timeline,
            final(self).perf == old(self).perf,
            final(self).cfg == old(self).cfg,
            final(self).explain_cache == old(self).explain_cache,
            final(self).needs_redraw == old(self).needs_redraw,
    {
        self.ui.jump_to = Some(id);
    }

    /// Whether a node glows.
    pub fn node_is_glowing(&self, id: &NodeId) -> (r: bool)
        requires
            self.wf(),
        ensures
            r == self.spatial.glow_nodes@.contains_key(id@),
    {
        self.spatial.glow_nodes.contains_key(id)
    }

    /// Whether an edge glows.
    pub fn edge_is_glowing(&self, e: &Edge) -> (r: bool)
        requires
            self.wf(),
        ensures
            r == self.spatial.glow_edges@.contains_key(e@),
    {
        self.spatial.glow_edges.contains_key(e)
    }

    /// A shortest path from `a` to `b` through allowed nodes. An answer is
    /// kept for 200 ms and given again to the same question under the
    /// same focus; else the path is found anew, with a depth bound of at
    /// least one step, and kept with `now`.
    pub fn explain_path_cached(
        &mut self,
        a: &NodeId,
        b: &NodeId,
        allowed: &VecSet<NodeId>,
        now: u64,
    ) -> (r: Option<Vec<PathStep>>)
        requires
            old(self).wf(),
        ensures
            final(self).wf(),
            cache_answers(*old(self), a@, b@, now) ==> steps_of(r) == steps_of(
                old(self).explain_cache->0.result,
            ) && *final(self) == *old(self),
            !cache_answers(*old(self), a@, b@, now) ==> {
                &&& shortest(
                    old(self).model.edges_view(),
                    allowed@,
                    a@,
                    b@,
                    explain_depth(*old(self)),
                    steps_of(r),
                )
                &&& final(self).explain_cache is Some
                &&& final(self).explain_cache->0.a == *a
                &&& final(self).explain_cache->0.b == *b
                &&& final(self).explain_cache->0.focus == old(self).ui.focus
                &&& final(self).explain_cache->0.ts == now
                &&& steps_of(final(self).explain_cache->0.result) == steps_of(r)
            },
            final(self).model == old(self).model,
            final(self).spatial == old(self).spatial,
            final(self).timeline == old(self).timeline,
            final(self).ui == old(self).ui,
            final(self).perf == old(self).perf,
            final(self).cfg == old(self).cfg,
            final(self).needs_redraw == old(self).needs_redraw,
    {
        let hit = match &self.explain_cache {
            Some(cache) => {
                let fresh = if now >= cache.ts {
                    now - cache.ts <= EXPLAIN_TTL
                } else {
                    true
                };
                cache.a.same(a) && cache.b.same(b) && same_option(&cache.focus, &self.ui.focus) && fresh
            },
            None => false,
        };
        if hit {
            return match &self.explain_cache {
                Some(cache) => copy_steps(&cache.result),
                None => None,
            };
        }
        let depth = if self.cfg.explain_max_depth < 1 {
            1
        } else {
            self.cfg.explain_max_depth
        };
        let result = shortest_path(&self.model, a.clone(), b.clone(), depth, allowed);
        let kept = copy_steps(&result);
        self.explain_cache = Some(
            ExplainCache {
                a: a.clone(),
                b: b.clone(),
                focus: copy_option(&self.ui.focus),
                ts: now,
                result: kept,
            },
        );
        result
    }
}

} // verus!
