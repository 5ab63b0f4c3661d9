//! What the viewer does once per frame besides applying messages: glows
//! end, the message rate window moves on, orphan files are collected, and
//! the timeline is trimmed. All times and durations are in milliseconds.

use vstd::prelude::*;
use crate::collections::{distinct_keys, has_key, key_set, position_of, Key};
use crate::model::{incident, GraphModel};
use crate::state::{clear_if, expire, still_glowing, GraphState};
use crate::timeline::{back_from, event_within, newest, span_alive, without_leading};
use crate::wire::{EdgeView, Node, NodeId};

verus! {

/// The width of the window over which messages are counted for the rate.
pub const RATE_WINDOW: u64 = 2_000;

/// How long ago `then` was at `now`; nothing if it lies ahead.
pub open spec fn age(now: u64, then: u64) -> u64 {
    if now >= then {
        (now - then) as u64
    } else {
        0
    }
}

/// The test that a message time lies more than the rate window before `now`.
pub open spec fn out_of_rate_window(now: u64) -> spec_fn(u64) -> bool {
    |t: u64| age(now, t) > RATE_WINDOW
}

/// Whether no raw edge of the model touches the node `id`.
pub open spec fn orphan(model: GraphModel, id: Seq<char>) -> bool {
    forall|e: EdgeView| #[trigger] model.edges_view().contains(e) ==> !incident(e, id)
}

/// The nodes that a collection at `now` removes: the files that no edge
/// touches and that were last seen at least `ttl` ago.
pub open spec fn gc_victims(model: GraphModel, now: u64, ttl: u64) -> Set<Seq<char>> {
    Set::new(
        |id: Seq<char>|
            model.nodes_view().contains_key(id) && model.nodes_view()[id] is File && orphan(model, id)
                && age(
                now,
                if model.last_seen_view().contains_key(id) {
                    model.last_seen_view()[id]
                } else {
                    now
                },
            ) >= ttl,
    )
}

/// Whether a collection is due at `now`.
pub open spec fn gc_due(st: GraphState, now: u64) -> bool {
    st.cfg.gc_enabled && age(now, st.perf.gc_last_run) >= st.cfg.gc_interval
}

/// A choice of the user, dropped if it is one of `gone`.
pub open spec fn unless_among(slot: Option<NodeId>, gone: Set<Seq<char>>) -> Option<NodeId> {
    match slot {
        Some(x) => if gone.contains(x@) {
            None
        } else {
            slot
        },
        None => None,
    }
}

/// What a collection at `now` makes of the state when it is due: the
/// victims leave the model with their last-seen times, positions and
/// glows; focus, selection and hover are dropped where they point at a
/// victim; and a redraw is due if there was a victim.
pub open spec fn collected(pre: GraphState, now: u64, post: GraphState) -> bool {
    let victims = gc_victims(pre.model, now, pre.cfg.gc_ttl);
    &&& post.model.nodes_view() == pre.model.nodes_view().remove_keys(victims)
    &&& post.model.last_seen_view() == pre.model.last_seen_view().remove_keys(victims)
    &&& post.model.edges_view() == pre.model.edges_view()
    &&& post.model.agg_view() == pre.model.agg_view()
    &&& post.model.adjacency() == pre.model.adjacency()
    &&& post.spatial.placed@ == pre.spatial.placed@.difference(victims)
    &&& post.spatial.glow_nodes@ == pre.spatial.glow_nodes@.remove_keys(victims)
    &&& post.spatial.glow_edges == pre.spatial.glow_edges
    &&& post.spatial.in_batch == pre.spatial.in_batch
    &&& post.spatial.touched_nodes == pre.spatial.touched_nodes
    &&& post.spatial.touched_edges == pre.spatial.touched_edges
    &&& post.spatial.last_batch_id == pre.spatial.last_batch_id
    &&& post.spatial.active_vis_cache == pre.spatial.active_vis_cache
    &&& post.spatial.progressive_cursor == pre.spatial.progressive_cursor
    &&& post.spatial.dirty_layout == pre.spatial.dirty_layout
    &&& post.ui.focus == unless_among(pre.ui.focus, victims)
    &&& post.ui.selected == unless_among(pre.ui.selected, victims)
    &&& post.ui.hovered == unless_among(pre.ui.hovered, victims)
    &&& post.ui.selected_a == pre.ui.selected_a
    &&& post.ui.selected_b == pre.ui.selected_b
    &&& post.ui.filter == pre.ui.filter
    &&& post.ui.show_3d == pre.ui.show_3d
    &&& post.ui.show_edges == pre.ui.show_edges
    &&& post.ui.focus_hops == pre.ui.focus_hops
    &&& post.ui.search_open == pre.ui.search_open
    &&& post.ui.search_query == pre.ui.search_query
    &&& post.ui.search_hits == pre.ui.search_hits
    &&& post.ui.jump_to == pre.ui.jump_to
    &&& post.ui.view_mode == pre.ui.view_mode
    &&& post.perf.gc_last_run == now
    &&& post.perf.visible_nodes == pre.perf.visible_nodes
    &&& post.perf.visible_edges == pre.perf.visible_edges
    &&& post.perf.visible_raw_edges == pre.perf.visible_raw_edges
    &&& post.perf.visible_agg_edges == pre.perf.visible_agg_edges
    &&& post.perf.event_total == pre.perf.event_total
    &&& post.perf.ev_window == pre.perf.ev_window
    &&& post.timeline == pre.timeline
    &&& post.cfg == pre.cfg
    &&& post.explain_cache == pre.explain_cache
    &&& post.needs_redraw == (pre.needs_redraw || victims != Set::<Seq<char>>::empty())
}

/// What `tick_glow` at `now` makes of the state: the glows that are over
/// are gone, and a redraw is due if one went.
pub open spec fn glow_ticked(pre: GraphState, now: u64, post: GraphState) -> bool {
    &&& post.spatial.glow_nodes@ == still_glowing(pre.spatial.glow_nodes@, now)
    &&& post.spatial.glow_edges@ == still_glowing(pre.spatial.glow_edges@, now)
    &&& post.needs_redraw == (pre.needs_redraw || post.spatial.glow_nodes@ != pre.spatial.glow_nodes@
        || post.spatial.glow_edges@ != pre.spatial.glow_edges@)
    &&& post.model == pre.model
    &&& post.timeline == pre.timeline
    &&& post.ui == pre.ui
    &&& post.perf == pre.perf
    &&& post.cfg == pre.cfg
    &&& post.explain_cache == pre.explain_cache
    &&& post.spatial.placed == pre.spatial.placed
    &&& post.spatial.in_batch == pre.spatial.in_batch
    &&& post.spatial.touched_nodes == pre.spatial.touched_nodes
    &&& post.spatial.touched_edges == pre.spatial.touched_edges
    &&& post.spatial.last_batch_id == pre.spatial.last_batch_id
    &&& post.spatial.active_vis_cache == pre.spatial.active_vis_cache
    &&& post.spatial.progressive_cursor == pre.spatial.progressive_cursor
    &&& post.spatial.dirty_layout == pre.spatial.dirty_layout
}

/// What `tick_metrics` at `now` makes of the state: the rate window is
/// without the message times at its front that lie more than two seconds back.
pub open spec fn metrics_ticked(pre: GraphState, now: u64, post: GraphState) -> bool {
    &&& post.perf.ev_window@ == without_leading(pre.perf.ev_window@, out_of_rate_window(now))
    &&& post.perf.visible_nodes == pre.perf.visible_nodes
    &&& post.perf.visible_edges == pre.perf.visible_edges
    &&& post.perf.visible_raw_edges == pre.perf.visible_raw_edges
    &&& post.perf.visible_agg_edges == pre.perf.visible_agg_edges
    &&& post.perf.event_total == pre.perf.event_total
    &&& post.perf.gc_last_run == pre.perf.gc_last_run
    &&& post.model == pre.model
    &&& post.spatial == pre.spatial
    &&& post.timeline == pre.timeline
    &&& post.ui == pre.ui
    &&& post.cfg == pre.cfg
    &&& post.explain_cache == pre.explain_cache
    &&& post.needs_redraw == pre.needs_redraw
}

/// What `tick_gc` at `now` makes of the state: a collection if one is due,
/// and nothing else.
pub open spec fn gc_ticked(pre: GraphState, now: u64, post: GraphState) -> bool {
    if gc_due(pre, now) {
        collected(pre, now, post)
    } else {
        post == pre
    }
}

/// What `tick_timeline` makes of the state when the clock reads `clock`:
/// the event buffer is cut to its newest events up to the cap and is
/// without the events that are older than the window, and the spans are
/// without those that ended before the window.
pub open spec fn timeline_ticked(pre: GraphState, clock: u64, post: GraphState) -> bool {
    let start = back_from(pre.timeline.shown_now(clock), pre.timeline.window);
    &&& post.timeline.events@ == newest(pre.timeline.events@, pre.timeline.max_events as nat).filter(
        event_within(start),
    )
    &&& post.timeline.batch_spans@ == pre.timeline.batch_spans@.filter(span_alive(start))
    &&& post.timeline.window == pre.timeline.window
    &&& post.timeline.pause == pre.timeline.pause
    &&& post.timeline.frozen_now == pre.timeline.frozen_now
    &&& post.timeline.scrub == pre.timeline.scrub
    &&& post.timeline.max_events == pre.timeline.max_events
    &&& post.timeline.node_life == pre.timeline.node_life
    &&& post.model == pre.model
    &&& post.spatial == pre.spatial
    &&& post.ui == pre.ui
    &&& post.perf == pre.perf
    &&& post.cfg == pre.cfg
    &&& post.explain_cache == pre.explain_cache
    &&& post.needs_redraw == pre.needs_redraw
}

fn time_since(now: u64, then: u64) -> (r: u64)
    ensures
        r == age(now, then),
{
    if now >= then {
        now - then
    } else {
        0
    }
}

pub proof fn lemma_key_set_push<K: Key>(prev: Seq<K>, k: K)
    ensures
        key_set(prev.push(k)) == key_set(prev).insert(k@),
{
    let next = prev.push(k);
    assert forall|q: K::V| key_set(next).contains(q) <==> key_set(prev).insert(k@).contains(q) by {
        if has_key(next, q) {
            let p = position_of(next, q);
            if p < prev.len() {
                assert(prev[p]@ == q);
            }
        }
        if has_key(prev, q) {
            let p = position_of(prev, q);
            assert(next[p]@ == q);
        }
        if q == k@ {
            assert(next[prev.len() as int]@ == q);
        }
    }
    assert(key_set(next) =~= key_set(prev).insert(k@));
}

impl GraphState {
    /// Ends the glows that are over at `now`; a redraw is due if any ended.
    pub fn tick_glow(&mut self, now: u64)
        requires
            old(self).wf(),
        ensures
            final(self).wf(),
            glow_ticked(*old(self), now, *final(self)),
    {
        let nodes_ended = expire(&mut self.spatial.glow_nodes, now);
        let edges_ended = expire(&mut self.spatial.glow_edges, now);
        if nodes_ended || edges_ended {
            self.needs_redraw = true;
        }
    }

    /// Drops from the rate window the message times that lie more than two
    /// seconds before `now`, from the front up to the first that does not.
    pub fn tick_metrics(&mut self, now: u64)
        ensures
            metrics_ticked(*old(self), now, *final(self)),
    {
        let ghost all = self.perf.ev_window@;
        let ghost test = out_of_rate_window(now);
        let ghost mut dropped = 0nat;
        proof {
            assert(all.skip(0) =~= all);
        }
        loop
            invariant
                dropped <= all.len(),
                self.perf.ev_window@ == all.skip(dropped as int),
                crate::timeline::leading(all, test) == dropped + crate::timeline::leading(
                    self.perf.ev_window@,
                    test,
                ),
                test == out_of_rate_window(now),
                self.perf.visible_nodes == old(self).perf.visible_nodes,
                self.perf.visible_edges == old(self).perf.visible_edges,
                self.perf.visible_raw_edges == old(self).perf.visible_raw_edges,
                self.perf.visible_agg_edges == old(self).perf.visible_agg_edges,
                self.perf.event_total == old(self).perf.event_total,
                self.perf.gc_last_run == old(self).perf.gc_last_run,
                self.model == old(self).model,
                self.spatial == old(self).spatial,
                self.timeline == old(self).timeline,
                self.ui == old(self).ui,
                self.cfg == old(self).cfg,
                self.explain_cache == old(self).explain_cache,
                self.needs_redraw == old(self).needs_redraw,
            ensures
                self.perf.ev_window@ == without_leading(all, test),
                self.perf.visible_nodes == old(self).perf.visible_nodes,
                self.perf.visible_edges == old(self).perf.visible_edges,
                self.perf.visible_raw_edges == old(self).perf.visible_raw_edges,
                self.perf.visible_agg_edges == old(self).perf.visible_agg_edges,
                self.perf.event_total == old(self).perf.event_total,
                self.perf.gc_last_run == old(self).perf.gc_last_run,
                self.model == old(self).model,
                self.spatial == old(self).spatial,
                self.timeline == old(self).timeline,
                self.ui == old(self).ui,
                self.cfg == old(self).cfg,
                self.explain_cache == old(self).explain_cache,
                self.needs_redraw == old(self).needs_redraw,
            decreases self.perf.ev_window.len(),
        {
            if self.perf.ev_window.len() == 0 {
                break ;
            }
            if time_since(now, self.perf.ev_window[0]) <= RATE_WINDOW {
                break ;
            }
            let ghost current = self.perf.ev_window@;
            let _ = self.perf.ev_window.pop_front();
            proof {
                assert(self.perf.ev_window@ =~= current.drop_first());
                assert(self.perf.ev_window@ =~= all.skip((dropped + 1) as int));
                dropped = dropped + 1;
            }
        }
    }

    /// The number of messages in the rate window.
    pub fn events_in_window(&self) -> (n: usize)
        ensures
            n == self.perf.ev_window@.len(),
    {
        self.perf.ev_window.len()
    }

    /// Collects orphan files if collecting is enabled and the interval
    /// since the last collection has passed; else nothing changes.
    pub fn tick_gc(&mut self, now: u64)
        requires
            old(self).wf(),
        ensures
            final(self).wf(),
            gc_ticked(*old(self), now, *final(self)),
            old(self).model.endpoints_present() ==> final(self).model.endpoints_present(),
    {
        if !self.cfg.gc_enabled {
            return ;
        }
        if time_since(now, self.perf.gc_last_run) < self.cfg.gc_interval {
            return ;
        }
        self.perf.gc_last_run = now;
        let ghost victims = gc_victims(self.model, now, self.cfg.gc_ttl);
        let ghost order = self.model.node_order();
        proof {
            self.model.lemma_orders();
        }
        let mut to_remove: Vec<NodeId> = Vec::new();
        let n = self.model.node_count();
        let mut i: usize = 0;
        while i < n
            invariant
                i <= n,
                n == order.len(),
                order == self.model.node_order(),
                self.model.wf(),
                self.model == old(self).model,
                distinct_keys(order),
                key_set(order) == self.model.nodes_view().dom(),
                distinct_keys(to_remove@),
                victims == gc_victims(self.model, now, self.cfg.gc_ttl),
                forall|q: Seq<char>|
                    has_key(to_remove@, q) <==> victims.contains(q) && has_key(order.take(i as int), q),
            decreases n - i,
        {
            let entry = self.model.node_at(i);
            let id = entry.0;
            let is_file = match entry.1 {
                Node::File { .. } => true,
                _ => false,
            };
            let mut hit = false;
            if is_file {
                let touching = self.model.edges_for_node(id);
                if touching.len() == 0 {
                    let last = match self.model.last_seen(id) {
                        Some(t) => t,
                        None => now,
                    };
                    if time_since(now, last) >= self.cfg.gc_ttl {
                        hit = true;
                    }
                    proof {
                        assert(orphan(self.model, id@)) by {
                            assert forall|e: EdgeView| #[trigger]
                                self.model.edges_view().contains(e) implies !incident(e, id@) by {
                                if incident(e, id@) {
                                    assert(crate::model::has_edge(touching@, e));
                                }
                            }
                        }
                    }
                } else {
                    proof {
                        assert(self.model.edges_view().contains(touching[0]@) && incident(
                            touching[0]@,
                            id@,
                        ));
                    }
                }
            }
            let ghost prev = order.take(i as int);
            let ghost next = order.take(i + 1);
            proof {
                assert(hit == victims.contains(id@));
                assert(next =~= prev.push(order[i as int]));
                lemma_key_set_push(prev, order[i as int]);
                assert(!has_key(prev, id@)) by {
                    if has_key(prev, id@) {
                        let p = position_of(prev, id@);
                        assert(order[p]@ != order[i as int]@);
                    }
                }
                assert forall|q: Seq<char>| has_key(next, q) <==> has_key(prev, q) || q == id@ by {
                    assert(key_set(next).contains(q) <==> key_set(prev).insert(id@).contains(q));
                }
            }
            if hit {
                let ghost before = to_remove@;
                to_remove.push(id.clone());
                proof {
                    lemma_key_set_push(before, *id);
                    assert forall|a: int, b: int| 0 <= a < b < to_remove@.len() implies (
                    #[trigger] to_remove@[a])@ != (#[trigger] to_remove@[b])@ by {
                        if b == before.len() {
                            assert(before[a]@ == to_remove@[a]@);
                            if before[a]@ == id@ {
                                assert(has_key(before, id@));
                            }
                        } else {
                            assert(before[a]@ != before[b]@);
                        }
                    }
                    assert forall|q: Seq<char>|
                        has_key(to_remove@, q) <==> victims.contains(q) && has_key(next, q) by {
                        assert(key_set(to_remove@).contains(q) <==> key_set(before).insert(id@).contains(
                            q,
                        ));
                        assert(has_key(before, q) <==> victims.contains(q) && has_key(prev, q));
                    }
                }
            } else {
                proof {
                    assert forall|q: Seq<char>|
                        has_key(to_remove@, q) <==> victims.contains(q) && has_key(next, q) by {
                        assert(has_key(to_remove@, q) <==> victims.contains(q) && has_key(prev, q));
                        assert(has_key(next, q) <==> has_key(prev, q) || q == id@);
                    }
                }
            }
            i += 1;
        }
        proof {
            assert(order.take(n as int) =~= order);
            assert(key_set(to_remove@) =~= victims);
        }
        if to_remove.len() == 0 {
            proof {
                assert(victims =~= Set::<Seq<char>>::empty());
                assert(self.model.nodes_view().remove_keys(victims) =~= self.model.nodes_view());
                assert(self.model.last_seen_view().remove_keys(victims) =~= self.model.last_seen_view());
                assert(self.spatial.placed@.difference(victims) =~= self.spatial.placed@);
                assert(self.spatial.glow_nodes@.remove_keys(victims) =~= self.spatial.glow_nodes@);
            }
            return ;
        }
        let mut j: usize = 0;
        proof {
            assert(key_set(to_remove@.take(0)) =~= Set::<Seq<char>>::empty());
            let none = Set::<Seq<char>>::empty();
            assert(self.model.nodes_view().remove_keys(none) =~= self.model.nodes_view());
            assert(self.model.last_seen_view().remove_keys(none) =~= self.model.last_seen_view());
            assert(self.spatial.placed@.difference(none) =~= self.spatial.placed@);
            assert(self.spatial.glow_nodes@.remove_keys(none) =~= self.spatial.glow_nodes@);
        }
        while j < to_remove.len()
            invariant
                j <= to_remove.len(),
                self.wf(),
                key_set(to_remove@) == victims,
                victims == gc_victims(old(self).model, now, old(self).cfg.gc_ttl),
                self.model.nodes_view() == old(self).model.nodes_view().remove_keys(
                    key_set(to_remove@.take(j as int)),
                ),
                self.model.last_seen_view() == old(self).model.last_seen_view().remove_keys(
                    key_set(to_remove@.take(j as int)),
                ),
                self.model.edges_view() == old(self).model.edges_view(),
                self.model.agg_view() == old(self).model.agg_view(),
                self.model.adjacency() == old(self).model.adjacency(),
                old(self).model.endpoints_present() ==> self.model.endpoints_present(),
                self.spatial.placed@ == old(self).spatial.placed@.difference(
                    key_set(to_remove@.take(j as int)),
                ),
                self.spatial.glow_nodes@ == old(self).spatial.glow_nodes@.remove_keys(
                    key_set(to_remove@.take(j as int)),
                ),
                self.spatial.glow_edges == old(self).spatial.glow_edges,
                self.spatial.in_batch == old(self).spatial.in_batch,
                self.spatial.touched_nodes == old(self).spatial.touched_nodes,
                self.spatial.touched_edges == old(self).spatial.touched_edges,
                self.spatial.last_batch_id == old(self).spatial.last_batch_id,
                self.spatial.active_vis_cache == old(self).spatial.active_vis_cache,
                self.spatial.progressive_cursor == old(self).spatial.progressive_cursor,
                self.spatial.dirty_layout == old(self).spatial.dirty_layout,
                self.ui.focus == unless_among(old(self).ui.focus, key_set(to_remove@.take(j as int))),
                self.ui.selected == unless_among(
                    old(self).ui.selected,
                    key_set(to_remove@.take(j as int)),
                ),
                self.ui.hovered == unless_among(
                    old(self).ui.hovered,
                    key_set(to_remove@.take(j as int)),
                ),
                self.ui.selected_a == old(self).ui.selected_a,
                self.ui.selected_b == old(self).ui.selected_b,
                self.ui.filter == old(self).ui.filter,
                self.ui.show_3d == old(self).ui.show_3d,
                self.ui.show_edges == old(self).ui.show_edges,
                self.ui.focus_hops == old(self).ui.focus_hops,
                self.ui.search_open == old(self).ui.search_open,
                self.ui.search_query == old(self).ui.search_query,
                self.ui.search_hits == old(self).ui.search_hits,
                self.ui.jump_to == old(self).ui.jump_to,
                self.ui.view_mode == old(self).ui.view_mode,
                self.perf.gc_last_run == now,
                self.perf.visible_nodes == old(self).perf.visible_nodes,
                self.perf.visible_edges == old(self).perf.visible_edges,
                self.perf.visible_raw_edges == old(self).perf.visible_raw_edges,
                self.perf.visible_agg_edges == old(self).perf.visible_agg_edges,
                self.perf.event_total == old(self).perf.event_total,
                self.perf.ev_window == old(self).perf.ev_window,
                self.timeline == old(self).timeline,
                self.cfg == old(self).cfg,
                self.explain_cache == old(self).explain_cache,
                self.needs_redraw == old(self).needs_redraw,
            decreases to_remove.len() - j,
        {
            let id = &to_remove[j];
            let ghost prev = to_remove@.take(j as int);
            let ghost next = to_remove@.take(j + 1);
            proof {
                assert(next =~= prev.push(*id));
                lemma_key_set_push(prev, *id);
                // a victim is an orphan, before and after other victims have left
                assert(victims.contains(id@)) by {
                    assert(has_key(to_remove@, id@));
                }
                assert(orphan(old(self).model, id@));
                assert(self.model.incident_list(id@).len() == 0) by {
                    let lists = self.model.adjacency();
                    self.model.lemma_invariants();
                    if lists.contains_key(id@) {
                        assert(lists[id@].len() > 0);
                        assert(self.model.edges_view().contains(lists[id@][0]@) && incident(
                            lists[id@][0]@,
                            id@,
                        ));
                    }
                }
            }
            self.model.forget_node(id);
            let _ = self.spatial.placed.remove(id);
            let _ = self.spatial.glow_nodes.remove(id);
            clear_if(&mut self.ui.focus, id);
            clear_if(&mut self.ui.selected, id);
            clear_if(&mut self.ui.hovered, id);
            proof {
                let gone = key_set(next);
                assert(self.model.nodes_view() =~= old(self).model.nodes_view().remove_keys(gone));
                assert(self.model.last_seen_view() =~= old(self).model.last_seen_view().remove_keys(
                    gone,
                ));
                assert(self.spatial.placed@ =~= old(self).spatial.placed@.difference(gone));
                assert(self.spatial.glow_nodes@ =~= old(self).spatial.glow_nodes@.remove_keys(gone));
            }
            j += 1;
        }
        proof {
            assert(to_remove@.take(to_remove.len() as int) =~= to_remove@);
            assert(has_key(to_remove@, to_remove@[0]@));
            assert(victims.contains(to_remove@[0]@));
        }
        self.needs_redraw = true;
    }

    /// The point in time that the timeline shows when the clock reads `clock`.
    pub fn timeline_now(&self, clock: u64) -> (now: u64)
        ensures
            now == self.timeline.shown_now(clock),
    {
        self.timeline.effective_now_from(clock)
    }

    /// Trims the timeline to what it shows when the clock reads `clock`:
    /// afterwards the buffer holds no more than its cap and no event that
    /// is older than the window.
    pub fn tick_timeline(&mut self, clock: u64)
        ensures
            timeline_ticked(*old(self), clock, *final(self)),
            final(self).timeline.events@.len() <= old(self).timeline.max_events,
            forall|i: int|
                0 <= i < final(self).timeline.events@.len() ==> old(self).timeline.shown_now(clock) - (
                #[trigger] final(self).timeline.events@[i]).ts <= old(self).timeline.window,
    {
        let now = self.timeline_now(clock);
        self.timeline.trim(now);
    }

    /// Pauses the timeline at `clock`, or lets it run again. Pausing
    /// freezes the time shown; letting it run forgets the frozen time and
    /// the scrub. A change of the pause makes a redraw due.
    pub fn set_timeline_pause(&mut self, pause: bool, clock: u64)
        ensures
            final(self).timeline.pause == pause,
            pause == old(self).timeline.pause ==> *final(self) == *old(self),
            pause != old(self).timeline.pause ==> {
                &&& final(self).needs_redraw
                &&& final(self).timeline.frozen_now == if pause {
                    Some(clock)
                } else {
                    None
                }
                &&& final(self).timeline.scrub == if pause {
                    old(self).timeline.scrub
                } else {
                    0
                }
            },
            final(self).timeline.window == old(self).timeline.window,
            final(self).timeline.events == old(self).timeline.events,
            final(self).timeline.max_events == old(self).timeline.max_events,
            final(self).timeline.node_life == old(self).timeline.node_life,
            final(self).timeline.batch_spans == old(self).timeline.batch_spans,
            final(self).model == old(self).model,
            final(self).spatial == old(self).spatial,
            final(self).ui == old(self).ui,
            final(self).perf == old(self).perf,
            final(self).cfg == old(self).cfg,
            final(self).explain_cache == old(self).explain_cache,
    {
        if pause == self.timeline.pause {
            return ;
        }
        self.timeline.pause = pause;
        if pause {
            self.timeline.frozen_now = Some(clock);
        } else {
            self.timeline.frozen_now = None;
            self.timeline.scrub = 0;
        }
        self.needs_redraw = true;
    }

    /// The work of one frame, in its order: glows, the rate window, the
    /// collection of orphans, and the timeline.
    pub fn tick_housekeeping(&mut self, clock: u64)
        requires
            old(self).wf(),
        ensures
            final(self).wf(),
            exists|a: GraphState, b: GraphState, c: GraphState|
                #![trigger glow_ticked(*old(self), clock, a), metrics_ticked(a, clock, b), gc_ticked(b, clock, c)]
                glow_ticked(*old(self), clock, a) && metrics_ticked(a, clock, b) && gc_ticked(b, clock, c)
                    && timeline_ticked(c, clock, *final(self)),
            final(self).timeline.events@.len() <= old(self).timeline.max_events,
            old(self).model.endpoints_present() ==> final(self).model.endpoints_present(),
    {
        self.tick_glow(clock);
        let ghost a = *self;
        self.tick_metrics(clock);
        let ghost b = *self;
        self.tick_gc(clock);
        let ghost c = *self;
        self.tick_timeline(clock);
        proof {
            assert(glow_ticked(*old(self), clock, a) && metrics_ticked(a, clock, b) && gc_ticked(b, clock, c)
                && timeline_ticked(c, clock, *self));
        }
    }
}

} // verus!
