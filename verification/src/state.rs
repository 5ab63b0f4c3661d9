//! The state of the viewer: the graph model with its indices, the state of
//! the spatial view, the timeline, what the user has chosen, counters and
//! settings. Incoming messages are applied here, and nowhere else is any of
//! it written. All times and durations are in milliseconds.

use vstd::prelude::*;
use std::collections::VecDeque;
use crate::collections::{distinct_keys, has_key, key_set, Key, VecMap, VecSet};
use crate::explain::PathStep;
use crate::model::{count_up, edge_removed, node_dropped, snapshot_loaded, touches, GraphModel};
use crate::protocol::{Incoming, IncomingKind};
use crate::timeline::{life_after_remove, life_after_upsert, last_open_span, BatchSpan, NodeLife, TimelineEvt, TimelineEvtKind, TimelineState};
use crate::wire::{Delta, Edge, EdgeKind, EdgeView, Msg, Node, NodeId};

verus! {

/// The state of the spatial view. The positions and velocities themselves
/// are kept by the renderer; `placed` says which nodes have one.
pub struct SpatialState {
    pub placed: VecSet<NodeId>,
    pub in_batch: bool,
    pub touched_nodes: VecSet<NodeId>,
    pub touched_edges: VecSet<Edge>,
    /// Until when each glowing node glows.
    pub glow_nodes: VecMap<NodeId, u64>,
    /// Until when each glowing edge glows.
    pub glow_edges: VecMap<Edge, u64>,
    pub last_batch_id: Option<u64>,
    /// The visible nodes in the order in which they are placed.
    pub active_vis_cache: Vec<NodeId>,
    /// How many nodes of `active_vis_cache` have been reached.
    pub progressive_cursor: usize,
    pub dirty_layout: bool,
}

/// Which of the two views is shown.
#[derive(Debug, Clone, Copy, PartialEq, Eq, Structural)]
pub enum ViewMode {
    Spatial,
    Timeline,
}

/// What the user has chosen.
pub struct UiState {
    pub filter: String,
    pub show_3d: bool,
    pub show_edges: bool,
    pub focus: Option<NodeId>,
    pub focus_hops: usize,
    pub hovered: Option<NodeId>,
    pub selected: Option<NodeId>,
    pub selected_a: Option<NodeId>,
    pub selected_b: Option<NodeId>,
    pub search_open: bool,
    pub search_query: String,
    pub search_hits: Vec<NodeId>,
    pub jump_to: Option<NodeId>,
    pub view_mode: ViewMode,
}

/// The last explained path, kept for a short while.
pub struct ExplainCache {
    pub a: NodeId,
    pub b: NodeId,
    pub focus: Option<NodeId>,
    pub ts: u64,
    pub result: Option<Vec<PathStep>>,
}

/// Counters.
pub struct PerfState {
    pub visible_nodes: usize,
    pub visible_edges: usize,
    pub visible_raw_edges: usize,
    pub visible_agg_edges: usize,
    /// How many messages were applied; it stops at `u64::MAX`.
    pub event_total: u64,
    /// The times of the messages of the last two seconds.
    pub ev_window: VecDeque<u64>,
    pub gc_last_run: u64,
}

/// Settings.
#[derive(Debug, Clone, Copy, PartialEq, Eq, Structural)]
pub struct CfgState {
    pub layout_force: bool,
    pub glow_duration: u64,
    pub max_visible_nodes: usize,
    pub progressive_nodes_per_frame: usize,
    pub gc_enabled: bool,
    pub gc_ttl: u64,
    pub gc_interval: u64,
    pub show_raw_edges: bool,
    pub show_agg_edges: bool,
    pub explain_max_depth: usize,
}

/// The whole state of the viewer.
pub struct GraphState {
    pub model: GraphModel,
    pub spatial: SpatialState,
    pub timeline: TimelineState,
    pub ui: UiState,
    pub perf: PerfState,
    pub cfg: CfgState,
    pub explain_cache: Option<ExplainCache>,
    pub needs_redraw: bool,
}

/// The time `span` after `t`, or the end of time where that lies beyond it.
pub open spec fn ahead_of(t: u64, span: u64) -> u64 {
    if t + span <= u64::MAX {
        (t + span) as u64
    } else {
        u64::MAX
    }
}

/// A choice of the user, dropped if it is the node `id`.
pub open spec fn unless_node(slot: Option<NodeId>, id: Seq<char>) -> Option<NodeId> {
    match slot {
        Some(x) => if x@ == id {
            None
        } else {
            slot
        },
        None => None,
    }
}

/// The glow map in which every key of `touched` glows until `until`.
pub open spec fn glow_all<K>(glow: Map<K, u64>, touched: Set<K>, until: u64) -> Map<K, u64> {
    Map::new(
        |k: K| glow.contains_key(k) || touched.contains(k),
        |k: K|
            if touched.contains(k) {
                until
            } else {
                glow[k]
            },
    )
}

/// The glow map without the glows that have ended at `now`.
pub open spec fn still_glowing<K>(glow: Map<K, u64>, now: u64) -> Map<K, u64> {
    Map::new(|k: K| glow.contains_key(k) && glow[k] > now, |k: K| glow[k])
}

/// The lives of nodes after every node of `nodes` was upserted at `ts`.
pub open spec fn lives_after_snapshot(
    lives: Map<Seq<char>, NodeLife>,
    nodes: Set<Seq<char>>,
    ts: u64,
) -> Map<Seq<char>, NodeLife> {
    Map::new(
        |k: Seq<char>| lives.contains_key(k) || nodes.contains(k),
        |k: Seq<char>|
            if nodes.contains(k) {
                life_after_upsert(
                    if lives.contains_key(k) {
                        Some(lives[k])
                    } else {
                        None
                    },
                    ts,
                )
            } else {
                lives[k]
            },
    )
}

/// The life of a node, if the timeline knows the node.
pub open spec fn life_of(lives: Map<Seq<char>, NodeLife>, id: Seq<char>) -> Option<NodeLife> {
    if lives.contains_key(id) {
        Some(lives[id])
    } else {
        None
    }
}

/// The timeline after an event was pushed: the event is the last of the
/// buffer, a node event is noted in the life of its node, and a batch
/// event opens or closes a span.
pub open spec fn timeline_pushed(pre: TimelineState, evt: TimelineEvt, post: TimelineState) -> bool {
    &&& post.window == pre.window
    &&& post.pause == pre.pause
    &&& post.frozen_now == pre.frozen_now
    &&& post.scrub == pre.scrub
    &&& post.max_events == pre.max_events
    &&& post.events@ == pre.events@.push(evt)
    &&& post.node_life@ == match (evt.kind, evt.a) {
        (TimelineEvtKind::NodeUpsert, Some(id)) => pre.node_life@.insert(
            id@,
            life_after_upsert(life_of(pre.node_life@, id@), evt.ts),
        ),
        (TimelineEvtKind::NodeRemove, Some(id)) => pre.node_life@.insert(
            id@,
            life_after_remove(life_of(pre.node_life@, id@), evt.ts),
        ),
        _ => pre.node_life@,
    }
    &&& post.batch_spans@ == match evt.kind {
        TimelineEvtKind::BatchBegin(id) => pre.batch_spans@.push(
            BatchSpan { id, start: evt.ts, end: None },
        ),
        TimelineEvtKind::BatchEnd(id) => match last_open_span(pre.batch_spans@, id) {
            Some(i) => pre.batch_spans@.update(
                i,
                BatchSpan { id, start: pre.batch_spans@[i].start, end: Some(evt.ts) },
            ),
            None => pre.batch_spans@,
        },
        _ => pre.batch_spans@,
    }
}

/// `t + span`, stopping at the end of time.
pub fn time_after(t: u64, span: u64) -> (r: u64)
    ensures
        r == ahead_of(t, span),
{
    if t <= u64::MAX - span {
        t + span
    } else {
        u64::MAX
    }
}

/// Drops a choice of the user if it is the node `id`.
pub(crate) fn clear_if(slot: &mut Option<NodeId>, id: &NodeId)
    ensures
        *final(slot) == unless_node(*old(slot), id@),
{
    let hit = match slot {
        Some(x) => x.same(id),
        None => false,
    };
    if hit {
        *slot = None;
    }
}

/// Drops from a glow map every glow that has ended at `now`. Returns
/// whether any was dropped.
pub fn expire<K: Key>(glow: &mut VecMap<K, u64>, now: u64) -> (dropped: bool)
    requires
        old(glow).wf(),
    ensures
        final(glow).wf(),
        final(glow)@ == still_glowing(old(glow)@, now),
        dropped == (final(glow)@ != old(glow)@),
{
    let mut dropped = false;
    let mut i: usize = 0;
    while i < glow.len()
        invariant
            glow.wf(),
            i <= glow.keys().len(),
            forall|j: int| 0 <= j < i ==> (#[trigger] glow.vals()[j]) > now,
            forall|k: K::V| #[trigger]
                glow@.contains_key(k) ==> old(glow)@.contains_key(k) && glow@[k] == old(glow)@[k],
            forall|k: K::V|
                old(glow)@.contains_key(k) && old(glow)@[k] > now ==> #[trigger] glow@.contains_key(k),
            dropped == (glow@ != old(glow)@),
        decreases glow.keys().len() - i,
    {
        if *glow.val_at(i) > now {
            i += 1;
        } else {
            let ghost before = *glow;
            let entry = glow.remove_at(i);
            dropped = true;
            proof {
                before.lemma_entry(i as int);
                assert(!glow@.contains_key(entry.0@));
                assert(old(glow)@.contains_key(entry.0@));
                assert forall|j: int| 0 <= j < i implies (#[trigger] glow.vals()[j]) > now by {
                    assert(glow.vals()[j] == before.vals()[j]);
                }
            }
        }
    }
    proof {
        assert forall|k: K::V| glow@.contains_key(k) implies glow@[k] > now by {
            let j = crate::collections::position_of(glow.keys(), k);
            glow.lemma_entry(j);
        }
        assert(glow@ =~= still_glowing(old(glow)@, now));
        if !dropped {
            assert(glow@ =~= old(glow)@);
        }
    }
    dropped
}

/// Makes every key of `touched` glow until `until` and empties `touched`.
pub fn glow_touched<K: Key>(glow: &mut VecMap<K, u64>, touched: &mut VecSet<K>, until: u64)
    requires
        old(glow).wf(),
        old(touched).wf(),
    ensures
        final(glow).wf(),
        final(touched).wf(),
        final(glow)@ == glow_all(old(glow)@, old(touched)@, until),
        final(touched)@ == Set::<K::V>::empty(),
{
    let mut i: usize = 0;
    let n = touched.len();
    while i < n
        invariant
            glow.wf(),
            touched.wf(),
            *touched == *old(touched),
            n == touched.items().len(),
            i <= n,
            glow@ == glow_all(old(glow)@, key_set(touched.items().take(i as int)), until),
        decreases n - i,
    {
        let k = touched.item_at(i).duplicate();
        let ghost prev = touched.items().take(i as int);
        let ghost next = touched.items().take(i + 1);
        glow.insert(k, until);
        proof {
            assert(next =~= prev.push(touched.items()[i as int]));
            assert forall|q: K::V| key_set(next).contains(q) <==> key_set(prev).contains(q) || q
                == touched.items()[i as int]@ by {
                if has_key(next, q) {
                    let p = crate::collections::position_of(next, q);
                    if p < prev.len() {
                        assert(prev[p]@ == q);
                    }
                }
                if has_key(prev, q) {
                    let p = crate::collections::position_of(prev, q);
                    assert(next[p]@ == q);
                }
                if q == touched.items()[i as int]@ {
                    assert(next[i as int]@ == q);
                }
            }
            assert(glow@ =~= glow_all(old(glow)@, key_set(next), until));
        }
        i += 1;
    }
    proof {
        assert(touched.items().take(n as int) =~= touched.items());
        assert(key_set(touched.items()) == old(touched)@);
    }
    touched.clear();
}

/// The parts of the spatial state that no delta writes are the same.
pub open spec fn layout_kept(pre: SpatialState, post: SpatialState) -> bool {
    &&& post.active_vis_cache == pre.active_vis_cache
    &&& post.progressive_cursor == pre.progressive_cursor
}

/// Counters, settings and the cached explanation are the same.
pub open spec fn rest_kept(pre: GraphState, post: GraphState) -> bool {
    &&& post.perf == pre.perf
    &&& post.cfg == pre.cfg
    &&& post.explain_cache == pre.explain_cache
}

/// What `BatchBegin { id }` at `ts` makes of the state: a batch is open,
/// nothing is touched yet, and the timeline has the event and an open span.
pub open spec fn batch_begun(pre: GraphState, id: u64, ts: u64, post: GraphState) -> bool {
    &&& post.model == pre.model
    &&& post.ui == pre.ui
    &&& rest_kept(pre, post)
    &&& post.needs_redraw == pre.needs_redraw
    &&& post.spatial.in_batch
    &&& post.spatial.last_batch_id == Some(id)
    &&& post.spatial.touched_nodes@ == Set::<Seq<char>>::empty()
    &&& post.spatial.touched_edges@ == Set::<EdgeView>::empty()
    &&& post.spatial.placed == pre.spatial.placed
    &&& post.spatial.glow_nodes == pre.spatial.glow_nodes
    &&& post.spatial.glow_edges == pre.spatial.glow_edges
    &&& post.spatial.dirty_layout == pre.spatial.dirty_layout
    &&& layout_kept(pre.spatial, post.spatial)
    &&& timeline_pushed(
        pre.timeline,
        TimelineEvt { ts, kind: TimelineEvtKind::BatchBegin(id), a: None, b: None, edge_kind: None },
        post.timeline,
    )
}

/// What `BatchEnd { id }` at `ts` makes of the state: no batch is open,
/// every touched node and edge glows for the glow duration from `ts`,
/// nothing is touched any more, the timeline has the event and closes the
/// span, and a redraw is due.
pub open spec fn batch_ended(pre: GraphState, id: u64, ts: u64, post: GraphState) -> bool {
    &&& post.model == pre.model
    &&& post.ui == pre.ui
    &&& rest_kept(pre, post)
    &&& post.needs_redraw
    &&& !post.spatial.in_batch
    &&& post.spatial.last_batch_id == pre.spatial.last_batch_id
    &&& post.spatial.touched_nodes@ == Set::<Seq<char>>::empty()
    &&& post.spatial.touched_edges@ == Set::<EdgeView>::empty()
    &&& post.spatial.placed == pre.spatial.placed
    &&& post.spatial.glow_nodes@ == glow_all(
        pre.spatial.glow_nodes@,
        pre.spatial.touched_nodes@,
        ahead_of(ts, pre.cfg.glow_duration),
    )
    &&& post.spatial.glow_edges@ == glow_all(
        pre.spatial.glow_edges@,
        pre.spatial.touched_edges@,
        ahead_of(ts, pre.cfg.glow_duration),
    )
    &&& post.spatial.dirty_layout == pre.spatial.dirty_layout
    &&& layout_kept(pre.spatial, post.spatial)
    &&& timeline_pushed(
        pre.timeline,
        TimelineEvt { ts, kind: TimelineEvtKind::BatchEnd(id), a: None, b: None, edge_kind: None },
        post.timeline,
    )
}

/// What `UpsertNode { id, node }` at `ts` makes of the state: the model has
/// the node, seen at `ts`; the layout is dirty; the timeline has the event
/// and the upsert in the life of the node; inside a batch the node is
/// touched, outside it glows at once; a redraw is due.
pub open spec fn node_upserted(pre: GraphState, id: NodeId, node: Node, ts: u64, post: GraphState) -> bool {
    &&& post.model.nodes_view() == pre.model.nodes_view().insert(id@, node)
    &&& post.model.last_seen_view() == pre.model.last_seen_view().insert(id@, ts)
    &&& post.model.edges_view() == pre.model.edges_view()
    &&& post.model.agg_view() == pre.model.agg_view()
    &&& post.model.adjacency() == pre.model.adjacency()
    &&& post.ui == pre.ui
    &&& rest_kept(pre, post)
    &&& post.needs_redraw
    &&& post.spatial.in_batch == pre.spatial.in_batch
    &&& post.spatial.last_batch_id == pre.spatial.last_batch_id
    &&& post.spatial.touched_nodes@ == if pre.spatial.in_batch {
        pre.spatial.touched_nodes@.insert(id@)
    } else {
        pre.spatial.touched_nodes@
    }
    &&& post.spatial.touched_edges == pre.spatial.touched_edges
    &&& post.spatial.placed == pre.spatial.placed
    &&& post.spatial.glow_nodes@ == if pre.spatial.in_batch {
        pre.spatial.glow_nodes@
    } else {
        pre.spatial.glow_nodes@.insert(id@, ahead_of(ts, pre.cfg.glow_duration))
    }
    &&& post.spatial.glow_edges == pre.spatial.glow_edges
    &&& post.spatial.dirty_layout
    &&& layout_kept(pre.spatial, post.spatial)
    &&& timeline_pushed(
        pre.timeline,
        TimelineEvt { ts, kind: TimelineEvtKind::NodeUpsert, a: Some(id), b: None, edge_kind: None },
        post.timeline,
    )
}

/// What `RemoveNode { id }` at `ts` makes of the state: the model is
/// without the node and the edges that touch it; the node has no position
/// and no glow, and the removed edges neither glow nor are touched; no
/// choice of the user points at the node; the layout is dirty; the
/// timeline has the event and the removal in the life of the node; inside a
/// batch the node is touched; a redraw is due.
pub open spec fn node_removed_at(pre: GraphState, id: NodeId, ts: u64, post: GraphState) -> bool {
    &&& node_dropped(pre.model, id@, post.model)
    &&& post.ui.focus == unless_node(pre.ui.focus, id@)
    &&& post.ui.selected == unless_node(pre.ui.selected, id@)
    &&& post.ui.selected_a == unless_node(pre.ui.selected_a, id@)
    &&& post.ui.selected_b == unless_node(pre.ui.selected_b, id@)
    &&& post.ui.hovered == unless_node(pre.ui.hovered, id@)
    &&& post.ui.filter == pre.ui.filter
    &&& post.ui.show_3d == pre.ui.show_3d
    &&& post.ui.show_edges == pre.ui.show_edges
    &&& post.ui.focus_hops == pre.ui.focus_hops
    &&& post.ui.search_open == pre.ui.search_open
    &&& post.ui.search_query == pre.ui.search_query
    &&& post.ui.search_hits == pre.ui.search_hits
    &&& post.ui.jump_to == pre.ui.jump_to
    &&& post.ui.view_mode == pre.ui.view_mode
    &&& rest_kept(pre, post)
    &&& post.needs_redraw
    &&& post.spatial.in_batch == pre.spatial.in_batch
    &&& post.spatial.last_batch_id == pre.spatial.last_batch_id
    &&& post.spatial.touched_nodes@ == if pre.spatial.in_batch {
        pre.spatial.touched_nodes@.insert(id@)
    } else {
        pre.spatial.touched_nodes@
    }
    &&& post.spatial.touched_edges@ == pre.spatial.touched_edges@.difference(
        pre.model.edges_view().filter(touches(id@)),
    )
    &&& post.spatial.placed@ == pre.spatial.placed@.remove(id@)
    &&& post.spatial.glow_nodes@ == pre.spatial.glow_nodes@.remove(id@)
    &&& post.spatial.glow_edges@ == pre.spatial.glow_edges@.remove_keys(
        pre.model.edges_view().filter(touches(id@)),
    )
    &&& post.spatial.dirty_layout
    &&& layout_kept(pre.spatial, post.spatial)
    &&& timeline_pushed(
        pre.timeline,
        TimelineEvt { ts, kind: TimelineEvtKind::NodeRemove, a: Some(id), b: None, edge_kind: None },
        post.timeline,
    )
}

/// What `UpsertEdge { edge }` at `ts` makes of the state: the model has the
/// edge and has counted the upsert; both endpoints were seen at `ts`; the
/// layout is dirty; the timeline has the event; inside a batch the edge and
/// its endpoints are touched, outside the edge glows at once; a redraw is due.
pub open spec fn edge_upserted_at(pre: GraphState, edge: Edge, ts: u64, post: GraphState) -> bool {
    &&& post.model.nodes_view() == pre.model.nodes_view()
    &&& post.model.last_seen_view() == pre.model.last_seen_view().insert(edge.from@, ts).insert(
        edge.to@,
        ts,
    )
    &&& post.model.edges_view() == pre.model.edges_view().insert(edge@)
    &&& post.model.agg_view() == crate::model::agg_after_upsert(
        pre.model.agg_view(),
        edge@,
        ts,
        !pre.model.edges_view().contains(edge@),
    )
    &&& post.ui == pre.ui
    &&& rest_kept(pre, post)
    &&& post.needs_redraw
    &&& post.spatial.in_batch == pre.spatial.in_batch
    &&& post.spatial.last_batch_id == pre.spatial.last_batch_id
    &&& post.spatial.touched_nodes@ == if pre.spatial.in_batch {
        pre.spatial.touched_nodes@.insert(edge.from@).insert(edge.to@)
    } else {
        pre.spatial.touched_nodes@
    }
    &&& post.spatial.touched_edges@ == if pre.spatial.in_batch {
        pre.spatial.touched_edges@.insert(edge@)
    } else {
        pre.spatial.touched_edges@
    }
    &&& post.spatial.placed == pre.spatial.placed
    &&& post.spatial.glow_nodes == pre.spatial.glow_nodes
    &&& post.spatial.glow_edges@ == if pre.spatial.in_batch {
        pre.spatial.glow_edges@
    } else {
        pre.spatial.glow_edges@.insert(edge@, ahead_of(ts, pre.cfg.glow_duration))
    }
    &&& post.spatial.dirty_layout
    &&& layout_kept(pre.spatial, post.spatial)
    &&& timeline_pushed(
        pre.timeline,
        TimelineEvt {
            ts,
            kind: TimelineEvtKind::EdgeUpsert,
            a: Some(edge.from),
            b: Some(edge.to),
            edge_kind: Some(edge.kind),
        },
        post.timeline,
    )
}

/// What `RemoveEdge { edge }` at `ts` makes of the state: the model is
/// without the edge, the edge does not glow, the timeline has the event,
/// and a redraw is due.
pub open spec fn edge_removed_at(pre: GraphState, edge: Edge, ts: u64, post: GraphState) -> bool {
    &&& edge_removed(pre.model, edge@, post.model)
    &&& post.ui == pre.ui
    &&& rest_kept(pre, post)
    &&& post.needs_redraw
    &&& post.spatial.in_batch == pre.spatial.in_batch
    &&& post.spatial.last_batch_id == pre.spatial.last_batch_id
    &&& post.spatial.touched_nodes == pre.spatial.touched_nodes
    &&& post.spatial.touched_edges == pre.spatial.touched_edges
    &&& post.spatial.placed == pre.spatial.placed
    &&& post.spatial.glow_nodes == pre.spatial.glow_nodes
    &&& post.spatial.glow_edges@ == pre.spatial.glow_edges@.remove(edge@)
    &&& post.spatial.dirty_layout == pre.spatial.dirty_layout
    &&& layout_kept(pre.spatial, post.spatial)
    &&& timeline_pushed(
        pre.timeline,
        TimelineEvt {
            ts,
            kind: TimelineEvtKind::EdgeRemove,
            a: Some(edge.from),
            b: Some(edge.to),
            edge_kind: Some(edge.kind),
        },
        post.timeline,
    )
}

/// Whether the model holds both endpoints of the edge that a delta
/// upserts; any other delta asks for nothing.
pub open spec fn endpoints_known(model: GraphModel, d: Delta) -> bool {
    match d {
        Delta::UpsertEdge { edge } => model.nodes_view().contains_key(edge.from@)
            && model.nodes_view().contains_key(edge.to@),
        _ => true,
    }
}

/// What a delta at `ts` makes of the state.
pub open spec fn delta_applied(pre: GraphState, d: Delta, ts: u64, post: GraphState) -> bool {
    match d {
        Delta::BatchBegin { id } => batch_begun(pre, id, ts, post),
        Delta::BatchEnd { id } => batch_ended(pre, id, ts, post),
        Delta::UpsertNode { id, node } => node_upserted(pre, id, node, ts, post),
        Delta::RemoveNode { id } => node_removed_at(pre, id, ts, post),
        Delta::UpsertEdge { edge } => edge_upserted_at(pre, edge, ts, post),
        Delta::RemoveEdge { edge } => edge_removed_at(pre, edge, ts, post),
    }
}

impl GraphState {
    /// The parts of the state hold what they should.
    pub open spec fn wf(&self) -> bool {
        &&& self.model.wf()
        &&& self.timeline.wf()
        &&& self.spatial.placed.wf()
        &&& self.spatial.touched_nodes.wf()
        &&& self.spatial.touched_edges.wf()
        &&& self.spatial.glow_nodes.wf()
        &&& self.spatial.glow_edges.wf()
    }

    /// Appends an event to the timeline and notes it in the registries.
    pub fn push_timeline_at(
        &mut self,
        ts: u64,
        kind: TimelineEvtKind,
        a: Option<NodeId>,
        b: Option<NodeId>,
        ek: Option<EdgeKind>,
    )
        requires
            old(self).wf(),
        ensures
            final(self).wf(),
            timeline_pushed(
                old(self).timeline,
                TimelineEvt { ts, kind, a, b, edge_kind: ek },
                final(self).timeline,
            ),
            final(self).model == old(self).model,
            final(self).spatial == old(self).spatial,
            final(self).ui == old(self).ui,
            final(self).perf == old(self).perf,
            final(self).cfg == old(self).cfg,
            final(self).explain_cache == old(self).explain_cache,
            final(self).needs_redraw == old(self).needs_redraw,
    {
        match kind {
            TimelineEvtKind::NodeUpsert => {
                match &a {
                    Some(id) => {
                        self.timeline.record_node_upsert(id, ts);
                    },
                    None => {},
                }
            },
            TimelineEvtKind::NodeRemove => {
                match &a {
                    Some(id) => {
                        self.timeline.record_node_remove(id, ts);
                    },
                    None => {},
                }
            },
            TimelineEvtKind::BatchBegin(id) => {
                self.timeline.record_batch_begin(id, ts);
            },
            TimelineEvtKind::BatchEnd(id) => {
                self.timeline.record_batch_end(id, ts);
            },
            _ => {},
        }
        self.timeline.events.push_back(TimelineEvt { ts, kind, a, b, edge_kind: ek });
    }

    /// Applies one delta that arrived at `ts`.
    pub fn apply_delta(&mut self, d: Delta, ts: u64)
        requires
            old(self).wf(),
        ensures
            final(self).wf(),
            delta_applied(*old(self), d, ts, *final(self)),
            old(self).model.endpoints_present() && endpoints_known(old(self).model, d) ==> final(self)
                .model.endpoints_present(),
    {
        match d {
            Delta::BatchBegin { id } => {
                self.spatial.in_batch = true;
                self.spatial.last_batch_id = Some(id);
                self.spatial.touched_nodes.clear();
                self.spatial.touched_edges.clear();
                self.push_timeline_at(ts, TimelineEvtKind::BatchBegin(id), None, None, None);
            },
            Delta::BatchEnd { id } => {
                self.spatial.in_batch = false;
                let until = time_after(ts, self.cfg.glow_duration);
                glow_touched(&mut self.spatial.glow_nodes, &mut self.spatial.touched_nodes, until);
                glow_touched(&mut self.spatial.glow_edges, &mut self.spatial.touched_edges, until);
                self.push_timeline_at(ts, TimelineEvtKind::BatchEnd(id), None, None, None);
                self.needs_redraw = true;
            },
            Delta::UpsertNode { id, node } => {
                self.model.upsert_node(id.clone(), node, ts);
                self.spatial.dirty_layout = true;
                self.push_timeline_at(ts, TimelineEvtKind::NodeUpsert, Some(id.clone()), None, None);
                if self.spatial.in_batch {
                    self.spatial.touched_nodes.insert(id);
                } else {
                    let until = time_after(ts, self.cfg.glow_duration);
                    self.spatial.glow_nodes.insert(id, until);
                }
                self.needs_redraw = true;
            },
            Delta::RemoveNode { id } => {
                let ghost gone = self.model.edges_view().filter(touches(id@));
                let removed_edges = self.model.remove_node(&id);
                let _ = self.spatial.placed.remove(&id);
                let _ = self.spatial.glow_nodes.remove(&id);
                let mut i: usize = 0;
                while i < removed_edges.len()
                    invariant
                        i <= removed_edges.len(),
                        self.spatial.glow_edges.wf(),
                        self.spatial.touched_edges.wf(),
                        self.spatial.glow_edges@ == old(self).spatial.glow_edges@.remove_keys(
                            key_set(removed_edges@.take(i as int)),
                        ),
                        self.spatial.touched_edges@ == old(self).spatial.touched_edges@.difference(
                            key_set(removed_edges@.take(i as int)),
                        ),
                        self.model.wf(),
                        self.timeline == old(self).timeline,
                        self.spatial.placed.wf(),
                        self.spatial.touched_nodes.wf(),
                        self.spatial.glow_nodes.wf(),
                        self.spatial.placed@ == old(self).spatial.placed@.remove(id@),
                        self.spatial.glow_nodes@ == old(self).spatial.glow_nodes@.remove(id@),
                        self.spatial.touched_nodes == old(self).spatial.touched_nodes,
                        self.spatial.in_batch == old(self).spatial.in_batch,
                        self.spatial.last_batch_id == old(self).spatial.last_batch_id,
                        self.spatial.dirty_layout == old(self).spatial.dirty_layout,
                        layout_kept(old(self).spatial, self.spatial),
                        node_dropped(old(self).model, id@, self.model),
                        self.ui == old(self).ui,
                        rest_kept(*old(self), *self),
                    decreases removed_edges.len() - i,
                {
                    let edge = &removed_edges[i];
                    let ghost prev = removed_edges@.take(i as int);
                    let ghost next = removed_edges@.take(i + 1);
                    let _ = self.spatial.glow_edges.remove(edge);
                    let _ = self.spatial.touched_edges.remove(edge);
                    proof {
                        assert(next =~= prev.push(*edge));
                        assert forall|q: EdgeView| key_set(next).contains(q) <==> key_set(prev).contains(q)
                            || q == edge@ by {
                            if has_key(next, q) {
                                let p = crate::collections::position_of(next, q);
                                if p < prev.len() {
                                    assert(prev[p]@ == q);
                                }
                            }
                            if has_key(prev, q) {
                                let p = crate::collections::position_of(prev, q);
                                assert(next[p]@ == q);
                            }
                            if q == edge@ {
                                assert(next[i as int]@ == q);
                            }
                        }
                        assert(self.spatial.glow_edges@ =~= old(self).spatial.glow_edges@.remove_keys(
                            key_set(next),
                        ));
                        assert(self.spatial.touched_edges@ =~= old(self).spatial.touched_edges@.difference(
                            key_set(next),
                        ));
                    }
                    i += 1;
                }
                proof {
                    assert(removed_edges@.take(removed_edges.len() as int) =~= removed_edges@);
                    assert(key_set(removed_edges@) == gone);
                }
                clear_if(&mut self.ui.focus, &id);
                clear_if(&mut self.ui.selected, &id);
                clear_if(&mut self.ui.selected_a, &id);
                clear_if(&mut self.ui.selected_b, &id);
                clear_if(&mut self.ui.hovered, &id);
                self.push_timeline_at(ts, TimelineEvtKind::NodeRemove, Some(id.clone()), None, None);
                self.spatial.dirty_layout = true;
                if self.spatial.in_batch {
                    self.spatial.touched_nodes.insert(id);
                }
                self.needs_redraw = true;
            },
            Delta::UpsertEdge { edge } => {
                self.model.upsert_edge(edge.clone(), ts);
                self.model.touch(&edge.from, ts);
                self.model.touch(&edge.to, ts);
                self.spatial.dirty_layout = true;
                self.push_timeline_at(
                    ts,
                    TimelineEvtKind::EdgeUpsert,
                    Some(edge.from.clone()),
                    Some(edge.to.clone()),
                    Some(edge.kind.clone()),
                );
                if self.spatial.in_batch {
                    self.spatial.touched_edges.insert(edge.clone());
                    self.spatial.touched_nodes.insert(edge.from.clone());
                    self.spatial.touched_nodes.insert(edge.to.clone());
                } else {
                    let until = time_after(ts, self.cfg.glow_duration);
                    self.spatial.glow_edges.insert(edge.clone(), until);
                }
                self.needs_redraw = true;
            },
            Delta::RemoveEdge { edge } => {
                let _ = self.model.remove_edge(&edge);
                let _ = self.spatial.glow_edges.remove(&edge);
                self.push_timeline_at(
                    ts,
                    TimelineEvtKind::EdgeRemove,
                    Some(edge.from.clone()),
                    Some(edge.to.clone()),
                    Some(edge.kind.clone()),
                );
                self.needs_redraw = true;
            },
        }
    }
}

/// The state that a viewer starts with.
pub open spec fn initial(st: GraphState) -> bool {
    &&& st.model.nodes_view() == Map::<Seq<char>, Node>::empty()
    &&& st.model.last_seen_view() == Map::<Seq<char>, u64>::empty()
    &&& st.model.edges_view() == Set::<EdgeView>::empty()
    &&& st.spatial.placed@ == Set::<Seq<char>>::empty()
    &&& !st.spatial.in_batch
    &&& st.spatial.touched_nodes@ == Set::<Seq<char>>::empty()
    &&& st.spatial.touched_edges@ == Set::<EdgeView>::empty()
    &&& st.spatial.glow_nodes@ == Map::<Seq<char>, u64>::empty()
    &&& st.spatial.glow_edges@ == Map::<EdgeView, u64>::empty()
    &&& st.spatial.last_batch_id is None
    &&& st.spatial.active_vis_cache@ == Seq::<NodeId>::empty()
    &&& st.spatial.progressive_cursor == 0
    &&& st.spatial.dirty_layout
    &&& st.timeline.window == 60_000
    &&& !st.timeline.pause
    &&& st.timeline.frozen_now is None
    &&& st.timeline.scrub == 0
    &&& st.timeline.events@ == Seq::<TimelineEvt>::empty()
    &&& st.timeline.max_events == 20_000
    &&& st.timeline.node_life@ == Map::<Seq<char>, NodeLife>::empty()
    &&& st.timeline.batch_spans@ == Seq::<BatchSpan>::empty()
    &&& st.ui.filter@ == Seq::<char>::empty()
    &&& st.ui.show_3d
    &&& st.ui.show_edges
    &&& st.ui.focus is None
    &&& st.ui.focus_hops == 2
    &&& st.ui.hovered is None
    &&& st.ui.selected is None
    &&& st.ui.selected_a is None
    &&& st.ui.selected_b is None
    &&& !st.ui.search_open
    &&& st.ui.search_query@ == Seq::<char>::empty()
    &&& st.ui.search_hits@ == Seq::<NodeId>::empty()
    &&& st.ui.jump_to is None
    &&& st.ui.view_mode == ViewMode::Spatial
    &&& st.perf.visible_nodes == 0
    &&& st.perf.visible_edges == 0
    &&& st.perf.visible_raw_edges == 0
    &&& st.perf.visible_agg_edges == 0
    &&& st.perf.event_total == 0
    &&& st.perf.ev_window@ == Seq::<u64>::empty()
    &&& st.perf.gc_last_run == 0
    &&& st.cfg == (CfgState {
        layout_force: true,
        glow_duration: 900,
        max_visible_nodes: 1200,
        progressive_nodes_per_frame: 250,
        gc_enabled: true,
        gc_ttl: 30_000,
        gc_interval: 1_000,
        show_raw_edges: false,
        show_agg_edges: true,
        explain_max_depth: 4,
    })
    &&& st.explain_cache is None
    &&& st.needs_redraw
}

impl Default for GraphState {
    /// The state that a viewer starts with: an empty graph, a timeline of
    /// sixty seconds and twenty thousand events, both kinds of edge shown
    /// in three dimensions, a glow of 900 ms, at most 1200 visible nodes,
    /// and orphan files collected every second after thirty.
    fn default() -> (st: Self)
        ensures
            st.wf(),
            initial(st),
    {
        GraphState {
            model: GraphModel::new(),
            spatial: SpatialState {
                placed: VecSet::new(),
                in_batch: false,
                touched_nodes: VecSet::new(),
                touched_edges: VecSet::new(),
                glow_nodes: VecMap::new(),
                glow_edges: VecMap::new(),
                last_batch_id: None,
                active_vis_cache: Vec::new(),
                progressive_cursor: 0,
                dirty_layout: true,
            },
            timeline: TimelineState {
                window: 60_000,
                pause: false,
                frozen_now: None,
                scrub: 0,
                events: VecDeque::new(),
                max_events: 20_000,
                node_life: VecMap::new(),
                batch_spans: VecDeque::new(),
            },
            ui: UiState {
                filter: String::new(),
                show_3d: true,
                show_edges: true,
                focus: None,
                focus_hops: 2,
                hovered: None,
                selected: None,
                selected_a: None,
                selected_b: None,
                search_open: false,
                search_query: String::new(),
                search_hits: Vec::new(),
                jump_to: None,
                view_mode: ViewMode::Spatial,
            },
            perf: PerfState {
                visible_nodes: 0,
                visible_edges: 0,
                visible_raw_edges: 0,
                visible_agg_edges: 0,
                event_total: 0,
                ev_window: VecDeque::new(),
                gc_last_run: 0,
            },
            cfg: CfgState {
                layout_force: true,
                glow_duration: 900,
                max_visible_nodes: 1200,
                progressive_nodes_per_frame: 250,
                gc_enabled: true,
                gc_ttl: 30_000,
                gc_interval: 1_000,
                show_raw_edges: false,
                show_agg_edges: true,
                explain_max_depth: 4,
            },
            explain_cache: None,
            needs_redraw: true,
        }
    }
}

/// What a snapshot taken at `now` makes of the state: the model holds the
/// snapshot and nothing else, every node of it was upserted at `now` in the
/// timeline, the layout starts over, the cached explanation is dropped,
/// and a redraw is due.
pub open spec fn snapshot_applied(
    pre: GraphState,
    nodes: Seq<(NodeId, Node)>,
    edges: Seq<Edge>,
    now: u64,
    post: GraphState,
) -> bool {
    &&& snapshot_loaded(post.model, nodes, edges, now)
    &&& post.timeline.node_life@ == lives_after_snapshot(
        pre.timeline.node_life@,
        crate::model::nodes_of(nodes).dom(),
        now,
    )
    &&& post.timeline.window == pre.timeline.window
    &&& post.timeline.pause == pre.timeline.pause
    &&& post.timeline.frozen_now == pre.timeline.frozen_now
    &&& post.timeline.scrub == pre.timeline.scrub
    &&& post.timeline.events == pre.timeline.events
    &&& post.timeline.max_events == pre.timeline.max_events
    &&& post.timeline.batch_spans == pre.timeline.batch_spans
    &&& post.spatial.dirty_layout
    &&& post.spatial.active_vis_cache@ == Seq::<NodeId>::empty()
    &&& post.spatial.progressive_cursor == 0
    &&& post.spatial.placed == pre.spatial.placed
    &&& post.spatial.in_batch == pre.spatial.in_batch
    &&& post.spatial.touched_nodes == pre.spatial.touched_nodes
    &&& post.spatial.touched_edges == pre.spatial.touched_edges
    &&& post.spatial.glow_nodes == pre.spatial.glow_nodes
    &&& post.spatial.glow_edges == pre.spatial.glow_edges
    &&& post.spatial.last_batch_id == pre.spatial.last_batch_id
    &&& post.ui == pre.ui
    &&& post.cfg == pre.cfg
    &&& post.perf == pre.perf
    &&& post.explain_cache is None
    &&& post.needs_redraw
}

/// The state after a message was counted at `now`.
pub open spec fn message_counted(pre: GraphState, now: u64, post: GraphState) -> bool {
    &&& post.perf.event_total == count_up(pre.perf.event_total)
    &&& post.perf.ev_window@ == pre.perf.ev_window@.push(now)
    &&& post.perf.visible_nodes == pre.perf.visible_nodes
    &&& post.perf.visible_edges == pre.perf.visible_edges
    &&& post.perf.visible_raw_edges == pre.perf.visible_raw_edges
    &&& post.perf.visible_agg_edges == pre.perf.visible_agg_edges
    &&& post.perf.gc_last_run == pre.perf.gc_last_run
    &&& post.model == pre.model
    &&& post.spatial == pre.spatial
    &&& post.timeline == pre.timeline
    &&& post.ui == pre.ui
    &&& post.cfg == pre.cfg
    &&& post.explain_cache == pre.explain_cache
    &&& post.needs_redraw == pre.needs_redraw
}

impl GraphState {
    /// The state that a viewer starts with at `now`: that of `default`,
    /// with `now` as the time of the last collection of orphans.
    pub fn new(now: u64) -> (st: Self)
        ensures
            st.wf(),
            st.perf.gc_last_run == now,
            st.model.nodes_view() == Map::<Seq<char>, Node>::empty(),
            st.model.edges_view() == Set::<EdgeView>::empty(),
            st.cfg == GraphState::default_cfg(),
            st.timeline.window == 60_000,
            st.timeline.max_events == 20_000,
            st.needs_redraw,
    {
        let mut st = GraphState::default();
        st.perf.gc_last_run = now;
        st
    }

    /// The settings that a viewer starts with.
    pub open spec fn default_cfg() -> CfgState {
        CfgState {
            layout_force: true,
            glow_duration: 900,
            max_visible_nodes: 1200,
            progressive_nodes_per_frame: 250,
            gc_enabled: true,
            gc_ttl: 30_000,
            gc_interval: 1_000,
            show_raw_edges: false,
            show_agg_edges: true,
            explain_max_depth: 4,
        }
    }

    /// Forgets the graph, what was chosen, glows, counters and the
    /// timeline's content. Settings, the timeline's window and cap, and the
    /// filter stay.
    pub fn clear(&mut self)
        requires
            old(self).wf(),
        ensures
            final(self).wf(),
            final(self).model.nodes_view() == Map::<Seq<char>, Node>::empty(),
            final(self).model.last_seen_view() == Map::<Seq<char>, u64>::empty(),
            final(self).model.edges_view() == Set::<EdgeView>::empty(),
            final(self).model.agg_view() == Map::<
                crate::model::AggKeyView,
                crate::model::AggEdgeView,
            >::empty(),
            final(self).spatial.placed@ == Set::<Seq<char>>::empty(),
            final(self).spatial.glow_nodes@ == Map::<Seq<char>, u64>::empty(),
            final(self).spatial.glow_edges@ == Map::<EdgeView, u64>::empty(),
            final(self).spatial.active_vis_cache@ == Seq::<NodeId>::empty(),
            final(self).spatial.progressive_cursor == 0,
            final(self).spatial.dirty_layout,
            final(self).spatial.in_batch == old(self).spatial.in_batch,
            final(self).spatial.last_batch_id == old(self).spatial.last_batch_id,
            final(self).spatial.touched_nodes == old(self).spatial.touched_nodes,
            final(self).spatial.touched_edges == old(self).spatial.touched_edges,
            final(self).ui.focus is None,
            final(self).ui.hovered is None,
            final(self).ui.selected is None,
            final(self).ui.selected_a is None,
            final(self).ui.selected_b is None,
            !final(self).ui.search_open,
            final(self).ui.search_query@ == Seq::<char>::empty(),
            final(self).ui.search_hits@ == Seq::<NodeId>::empty(),
            final(self).ui.jump_to is None,
            final(self).ui.filter == old(self).ui.filter,
            final(self).ui.show_3d == old(self).ui.show_3d,
            final(self).ui.show_edges == old(self).ui.show_edges,
            final(self).ui.focus_hops == old(self).ui.focus_hops,
            final(self).ui.view_mode == old(self).ui.view_mode,
            final(self).perf.ev_window@ == Seq::<u64>::empty(),
            final(self).perf.event_total == 0,
            final(self).perf.gc_last_run == old(self).perf.gc_last_run,
            final(self).timeline.events@ == Seq::<TimelineEvt>::empty(),
            !final(self).timeline.pause,
            final(self).timeline.frozen_now is None,
            final(self).timeline.scrub == 0,
            final(self).timeline.node_life@ == Map::<Seq<char>, NodeLife>::empty(),
            final(self).timeline.batch_spans@ == Seq::<BatchSpan>::empty(),
            final(self).timeline.window == old(self).timeline.window,
            final(self).timeline.max_events == old(self).timeline.max_events,
            final(self).cfg == old(self).cfg,
            final(self).explain_cache is None,
            final(self).needs_redraw,
    {
        self.model.clear();
        self.spatial.placed.clear();
        self.ui.focus = None;
        self.ui.hovered = None;
        self.ui.selected = None;
        self.ui.selected_a = None;
        self.ui.selected_b = None;
        self.ui.search_open = false;
        self.ui.search_query = String::new();
        self.ui.search_hits.clear();
        self.ui.jump_to = None;
        self.spatial.glow_nodes.clear();
        self.spatial.glow_edges.clear();
        self.perf.ev_window.clear();
        self.perf.event_total = 0;
        self.timeline.events.clear();
        self.timeline.pause = false;
        self.timeline.frozen_now = None;
        self.timeline.scrub = 0;
        self.timeline.node_life.clear();
        self.timeline.batch_spans.clear();
        self.spatial.active_vis_cache.clear();
        self.spatial.progressive_cursor = 0;
        self.spatial.dirty_layout = true;
        self.explain_cache = None;
        self.needs_redraw = true;
    }
}

/// Whether a message brings the endpoints of its edges along: a snapshot
/// holds both endpoints of each of its edges among its nodes, and an
/// upsert of an edge finds both in the model.
pub open spec fn endpoints_sent(model: GraphModel, inc: Incoming) -> bool {
    match inc.kind {
        IncomingKind::Snapshot(Msg::Snapshot { nodes, edges }) => forall|j: int|
            0 <= j < edges.len() ==> crate::model::nodes_of(nodes@).contains_key(
                (#[trigger] edges[j]).from@,
            ) && crate::model::nodes_of(nodes@).contains_key(edges[j].to@),
        IncomingKind::Event(Msg::Event { delta }) => endpoints_known(model, delta),
        _ => true,
    }
}

/// What a message that arrived at `now` makes of a state in which it was
/// counted already: a snapshot is loaded, a delta is applied, and any
/// other message changes nothing.
pub open spec fn message_applied(mid: GraphState, inc: Incoming, now: u64, post: GraphState) -> bool {
    match inc.kind {
        IncomingKind::Snapshot(Msg::Snapshot { nodes, edges }) => snapshot_applied(
            mid,
            nodes@,
            edges@,
            now,
            post,
        ),
        IncomingKind::Event(Msg::Event { delta }) => delta_applied(mid, delta, now, post),
        _ => post == mid,
    }
}

impl GraphState {
    /// Counts a message that arrived at `now`.
    pub fn on_message(&mut self, now: u64)
        ensures
            message_counted(*old(self), now, *final(self)),
    {
        if self.perf.event_total < u64::MAX {
            self.perf.event_total = self.perf.event_total + 1;
        }
        self.perf.ev_window.push_back(now);
    }

    /// Makes the layout start over: it is dirty, the placing begins anew,
    /// the cached explanation is dropped, and a redraw is due.
    pub fn mark_dirty_all(&mut self)
        ensures
            final(self).spatial.dirty_layout,
            final(self).spatial.active_vis_cache@ == Seq::<NodeId>::empty(),
            final(self).spatial.progressive_cursor == 0,
            final(self).explain_cache is None,
            final(self).needs_redraw,
            final(self).model == old(self).model,
            final(self).timeline == old(self).timeline,
            final(self).ui == old(self).ui,
            final(self).perf == old(self).perf,
            final(self).cfg == old(self).cfg,
            final(self).spatial.placed == old(self).spatial.placed,
            final(self).spatial.in_batch == old(self).spatial.in_batch,
            final(self).spatial.touched_nodes == old(self).spatial.touched_nodes,
            final(self).spatial.touched_edges == old(self).spatial.touched_edges,
            final(self).spatial.glow_nodes == old(self).spatial.glow_nodes,
            final(self).spatial.glow_edges == old(self).spatial.glow_edges,
            final(self).spatial.last_batch_id == old(self).spatial.last_batch_id,
    {
        self.spatial.dirty_layout = true;
        self.spatial.active_vis_cache.clear();
        self.spatial.progressive_cursor = 0;
        self.explain_cache = None;
        self.needs_redraw = true;
    }

    /// Applies a message that arrived at `now`: it is counted, and then a
    /// snapshot is loaded, a delta is applied, and any other message is
    /// passed over.
    pub fn apply(&mut self, inc: Incoming, now: u64)
        requires
            old(self).wf(),
        ensures
            final(self).wf(),
            exists|mid: GraphState| #[trigger]
                message_counted(*old(self), now, mid) && message_applied(mid, inc, now, *final(self)),
            old(self).model.endpoints_present() && endpoints_sent(old(self).model, inc) ==> final(self)
                .model.endpoints_present(),
    {
        self.on_message(now);
        let ghost mid = *self;
        match inc.kind {
            IncomingKind::Snapshot(Msg::Snapshot { nodes, edges }) => {
                let ghost input = nodes@;
                self.model.load_snapshot(nodes, edges, now);
                let n = self.model.node_count();
                let mut i: usize = 0;
                proof {
                    self.model.lemma_orders();
                    assert(key_set(self.model.node_order().take(0)) =~= Set::<Seq<char>>::empty());
                    assert(self.timeline.node_life@ =~= lives_after_snapshot(
                        mid.timeline.node_life@,
                        Set::<Seq<char>>::empty(),
                        now,
                    ));
                }
                while i < n
                    invariant
                        i <= n,
                        n == self.model.node_order().len(),
                        self.model.wf(),
                        self.timeline.wf(),
                        distinct_keys(self.model.node_order()),
                        self.timeline.node_life@ == lives_after_snapshot(
                            mid.timeline.node_life@,
                            key_set(self.model.node_order().take(i as int)),
                            now,
                        ),
                        self.timeline.window == mid.timeline.window,
                        self.timeline.pause == mid.timeline.pause,
                        self.timeline.frozen_now == mid.timeline.frozen_now,
                        self.timeline.scrub == mid.timeline.scrub,
                        self.timeline.events == mid.timeline.events,
                        self.timeline.max_events == mid.timeline.max_events,
                        self.timeline.batch_spans == mid.timeline.batch_spans,
                        self.spatial == mid.spatial,
                        self.ui == mid.ui,
                        self.perf == mid.perf,
                        self.cfg == mid.cfg,
                        self.explain_cache == mid.explain_cache,
                        self.needs_redraw == mid.needs_redraw,
                        snapshot_loaded(self.model, input, edges@, now),
                    decreases n - i,
                {
                    let entry = self.model.node_at(i);
                    let ghost order = self.model.node_order();
                    let ghost prev = order.take(i as int);
                    let ghost next = order.take(i + 1);
                    proof {
                        assert(next =~= prev.push(order[i as int]));
                        assert(!has_key(prev, order[i as int]@)) by {
                            if has_key(prev, order[i as int]@) {
                                let p = crate::collections::position_of(prev, order[i as int]@);
                                assert(order[p]@ != order[i as int]@);
                            }
                        }
                        assert forall|q: Seq<char>| key_set(next).contains(q) <==> key_set(prev).contains(
                            q,
                        ) || q == order[i as int]@ by {
                            if has_key(next, q) {
                                let p = crate::collections::position_of(next, q);
                                if p < prev.len() {
                                    assert(prev[p]@ == q);
                                }
                            }
                            if has_key(prev, q) {
                                let p = crate::collections::position_of(prev, q);
                                assert(next[p]@ == q);
                            }
                            if q == order[i as int]@ {
                                assert(next[i as int]@ == q);
                            }
                        }
                    }
                    self.timeline.record_node_upsert(entry.0, now);
                    proof {
                        assert(self.timeline.node_life@ =~= lives_after_snapshot(
                            mid.timeline.node_life@,
                            key_set(next),
                            now,
                        ));
                    }
                    i += 1;
                }
                proof {
                    assert(self.model.node_order().take(n as int) =~= self.model.node_order());
                    self.model.lemma_orders();
                }
                self.mark_dirty_all();
            },
            IncomingKind::Event(Msg::Event { delta }) => {
                self.apply_delta(delta, now);
            },
            _ => {},
        }
        assert(message_counted(*old(self), now, mid) && message_applied(mid, inc, now, *self));
    }
}

} // verus!
