//! The timeline of the viewer: a bounded buffer of events, the life of every
//! node that was seen, the spans of batches, and the point in time that the
//! view shows. All times and durations are in milliseconds.

use vstd::prelude::*;
use std::collections::VecDeque;
use crate::collections::VecMap;
use crate::wire::{EdgeKind, NodeId};

verus! {

/// When a node was first and last seen, and when it was removed.
#[derive(Debug, Clone, Copy, PartialEq, Eq, Structural)]
pub struct NodeLife {
    pub first_seen: u64,
    pub last_seen: u64,
    pub removed_at: Option<u64>,
}

/// The span of one batch; `end` is open until the batch ends.
#[derive(Debug, Clone, Copy, PartialEq, Eq, Structural)]
pub struct BatchSpan {
    pub id: u64,
    pub start: u64,
    pub end: Option<u64>,
}

/// What happened at an event of the timeline.
#[derive(Debug, Clone, Copy, PartialEq, Eq, Structural)]
pub enum TimelineEvtKind {
    NodeUpsert,
    NodeRemove,
    EdgeUpsert,
    EdgeRemove,
    BatchBegin(u64),
    BatchEnd(u64),
}

/// One event of the timeline: a node event names the node in `a`, an edge
/// event source and target in `a` and `b` and the kind of the edge.
#[derive(Debug, PartialEq, Eq)]
pub struct TimelineEvt {
    pub ts: u64,
    pub kind: TimelineEvtKind,
    pub a: Option<NodeId>,
    pub b: Option<NodeId>,
    pub edge_kind: Option<EdgeKind>,
}

/// The state of the timeline.
pub struct TimelineState {
    /// How far back the timeline reaches.
    pub window: u64,
    pub pause: bool,
    /// The time at which the timeline was paused.
    pub frozen_now: Option<u64>,
    /// How far back from `frozen_now` a paused timeline was scrubbed.
    pub scrub: u64,
    pub events: VecDeque<TimelineEvt>,
    /// The cap of the event buffer.
    pub max_events: usize,
    pub node_life: VecMap<NodeId, NodeLife>,
    pub batch_spans: VecDeque<BatchSpan>,
}

/// The smaller of two times.
pub open spec fn earlier(a: u64, b: u64) -> u64 {
    if a <= b {
        a
    } else {
        b
    }
}

/// The larger of two times.
pub open spec fn later(a: u64, b: u64) -> u64 {
    if a >= b {
        a
    } else {
        b
    }
}

/// The time `span` before `t`, or the start of time where that lies before it.
pub open spec fn back_from(t: u64, span: u64) -> u64 {
    if t >= span {
        (t - span) as u64
    } else {
        0
    }
}

/// The life of a node after an upsert at `ts`. An upsert at or after the
/// removal makes the node live again.
pub open spec fn life_after_upsert(prev: Option<NodeLife>, ts: u64) -> NodeLife {
    match prev {
        None => NodeLife { first_seen: ts, last_seen: ts, removed_at: None },
        Some(l) => NodeLife {
            first_seen: earlier(l.first_seen, ts),
            last_seen: later(l.last_seen, ts),
            removed_at: match l.removed_at {
                Some(r) => if ts >= r {
                    None
                } else {
                    Some(r)
                },
                None => None,
            },
        },
    }
}

/// The life of a node after a removal at `ts`.
pub open spec fn life_after_remove(prev: Option<NodeLife>, ts: u64) -> NodeLife {
    match prev {
        None => NodeLife { first_seen: ts, last_seen: ts, removed_at: Some(ts) },
        Some(l) => NodeLife {
            first_seen: earlier(l.first_seen, ts),
            last_seen: later(l.last_seen, ts),
            removed_at: Some(ts),
        },
    }
}

/// The part of a life that lies in the window from `window_start` to `now`,
/// if any of it does.
pub open spec fn life_interval(life: NodeLife, window_start: u64, now: u64) -> Option<(u64, u64)> {
    let start = later(life.first_seen, window_start);
    let end = match life.removed_at {
        Some(r) => earlier(r, now),
        None => now,
    };
    if end <= start {
        None
    } else {
        Some((start, end))
    }
}

/// How many elements at the front of a sequence meet a test.
pub open spec fn leading<T>(s: Seq<T>, test: spec_fn(T) -> bool) -> nat
    decreases s.len(),
{
    if s.len() > 0 && test(s[0]) {
        1 + leading(s.drop_first(), test)
    } else {
        0
    }
}

/// The test that an event is not older than `start`.
pub open spec fn event_within(start: u64) -> spec_fn(TimelineEvt) -> bool {
    |e: TimelineEvt| e.ts >= start
}

/// The test that a span is open or has ended no earlier than `start`.
pub open spec fn span_alive(start: u64) -> spec_fn(BatchSpan) -> bool {
    |s: BatchSpan| !(s.end is Some && s.end->0 < start)
}

/// The last `cap` elements of a sequence, or all of it if it has no more.
pub open spec fn newest<T>(s: Seq<T>, cap: nat) -> Seq<T> {
    if s.len() > cap {
        s.skip(s.len() - cap)
    } else {
        s
    }
}

/// A sequence without the elements at its front that meet a test.
pub open spec fn without_leading<T>(s: Seq<T>, test: spec_fn(T) -> bool) -> Seq<T> {
    s.skip(leading(s, test) as int)
}

/// The position of the last open span of the batch `id`, if there is one.
pub open spec fn last_open_span(spans: Seq<BatchSpan>, id: u64) -> Option<int>
    decreases spans.len(),
{
    if spans.len() == 0 {
        None
    } else if spans.last().id == id && spans.last().end is None {
        Some(spans.len() - 1)
    } else {
        last_open_span(spans.drop_last(), id)
    }
}

/// The last span of the batch `id`, if there is one.
pub open spec fn last_span(spans: Seq<BatchSpan>, id: u64) -> Option<BatchSpan>
    decreases spans.len(),
{
    if spans.len() == 0 {
        None
    } else if spans.last().id == id {
        Some(spans.last())
    } else {
        last_span(spans.drop_last(), id)
    }
}

impl Default for TimelineState {
    /// A running timeline with no window, no events and no cap.
    fn default() -> (t: Self)
        ensures
            t.wf(),
            t.window == 0,
            !t.pause,
            t.frozen_now is None,
            t.scrub == 0,
            t.events@ == Seq::<TimelineEvt>::empty(),
            t.max_events == 0,
            t.node_life@ == Map::<Seq<char>, NodeLife>::empty(),
            t.batch_spans@ == Seq::<BatchSpan>::empty(),
    {
        TimelineState {
            window: 0,
            pause: false,
            frozen_now: None,
            scrub: 0,
            events: VecDeque::new(),
            max_events: 0,
            node_life: VecMap::new(),
            batch_spans: VecDeque::new(),
        }
    }
}

impl TimelineState {
    /// The parts of the state hold what they should.
    pub open spec fn wf(&self) -> bool {
        self.node_life.wf()
    }

    /// The point in time that the timeline shows when the clock reads
    /// `base_now`: the clock itself while the timeline runs, and the time of
    /// the pause less the scrub while it is paused. Of the scrub no more
    /// than the window counts.
    pub open spec fn shown_now(&self, base_now: u64) -> u64 {
        if self.pause {
            match self.frozen_now {
                Some(t) => back_from(t, earlier(self.scrub, self.window)),
                None => back_from(base_now, earlier(self.scrub, self.window)),
            }
        } else {
            base_now
        }
    }

    /// The point in time that the timeline shows when the clock reads `base_now`.
    pub fn effective_now_from(&self, base_now: u64) -> (now: u64)
        ensures
            now == self.shown_now(base_now),
    {
        if self.pause {
            let base = match self.frozen_now {
                Some(t) => t,
                None => base_now,
            };
            let scrub = if self.scrub <= self.window {
                self.scrub
            } else {
                self.window
            };
            if base >= scrub {
                base - scrub
            } else {
                0
            }
        } else {
            base_now
        }
    }

    /// Sets how far back a paused timeline is scrubbed, at most the window.
    pub fn set_scrub(&mut self, scrub: u64)
        ensures
            final(self).scrub == earlier(scrub, old(self).window),
            final(self).window == old(self).window,
            final(self).pause == old(self).pause,
            final(self).frozen_now == old(self).frozen_now,
            final(self).events == old(self).events,
            final(self).max_events == old(self).max_events,
            final(self).node_life == old(self).node_life,
            final(self).batch_spans == old(self).batch_spans,
    {
        self.scrub = if scrub <= self.window {
            scrub
        } else {
            self.window
        };
    }

    /// Where the window starts when the timeline shows `now`.
    pub fn window_start(&self, now: u64) -> (start: u64)
        ensures
            start == back_from(now, self.window),
    {
        if now >= self.window {
            now - self.window
        } else {
            0
        }
    }

    /// Notes that the node `id` was upserted at `ts`.
    pub fn record_node_upsert(&mut self, id: &NodeId, ts: u64)
        requires
            old(self).wf(),
        ensures
            final(self).wf(),
            final(self).node_life@ == old(self).node_life@.insert(
                id@,
                life_after_upsert(
                    if old(self).node_life@.contains_key(id@) {
                        Some(old(self).node_life@[id@])
                    } else {
                        None
                    },
                    ts,
                ),
            ),
            final(self).window == old(self).window,
            final(self).pause == old(self).pause,
            final(self).frozen_now == old(self).frozen_now,
            final(self).scrub == old(self).scrub,
            final(self).events == old(self).events,
            final(self).max_events == old(self).max_events,
            final(self).batch_spans == old(self).batch_spans,
    {
        let life = match self.node_life.get(id) {
            Some(l) => NodeLife {
                first_seen: if ts < l.first_seen {
                    ts
                } else {
                    l.first_seen
                },
                last_seen: if ts > l.last_seen {
                    ts
                } else {
                    l.last_seen
                },
                removed_at: match l.removed_at {
                    Some(r) => if ts >= r {
                        None
                    } else {
                        Some(r)
                    },
                    None => None,
                },
            },
            None => NodeLife { first_seen: ts, last_seen: ts, removed_at: None },
        };
        self.node_life.insert(id.clone(), life);
    }

    /// Notes that the node `id` was removed at `ts`.
    pub fn record_node_remove(&mut self, id: &NodeId, ts: u64)
        requires
            old(self).wf(),
        ensures
            final(self).wf(),
            final(self).node_life@ == old(self).node_life@.insert(
                id@,
                life_after_remove(
                    if old(self).node_life@.contains_key(id@) {
                        Some(old(self).node_life@[id@])
                    } else {
                        None
                    },
                    ts,
                ),
            ),
            final(self).window == old(self).window,
            final(self).pause == old(self).pause,
            final(self).frozen_now == old(self).frozen_now,
            final(self).scrub == old(self).scrub,
            final(self).events == old(self).events,
            final(self).max_events == old(self).max_events,
            final(self).batch_spans == old(self).batch_spans,
    {
        let life = match self.node_life.get(id) {
            Some(l) => NodeLife {
                first_seen: if ts < l.first_seen {
                    ts
                } else {
                    l.first_seen
                },
                last_seen: if ts > l.last_seen {
                    ts
                } else {
                    l.last_seen
                },
                removed_at: Some(ts),
            },
            None => NodeLife { first_seen: ts, last_seen: ts, removed_at: Some(ts) },
        };
        self.node_life.insert(id.clone(), life);
    }

    /// Opens a span for the batch `id` at `ts`.
    pub fn record_batch_begin(&mut self, id: u64, ts: u64)
        ensures
            final(self).batch_spans@ == old(self).batch_spans@.push(
                BatchSpan { id, start: ts, end: None },
            ),
            final(self).window == old(self).window,
            final(self).pause == old(self).pause,
            final(self).frozen_now == old(self).frozen_now,
            final(self).scrub == old(self).scrub,
            final(self).events == old(self).events,
            final(self).max_events == old(self).max_events,
            final(self).node_life == old(self).node_life,
    {
        self.batch_spans.push_back(BatchSpan { id, start: ts, end: None });
    }

    /// Closes at `ts` the last open span of the batch `id`, if there is one.
    pub fn record_batch_end(&mut self, id: u64, ts: u64)
        ensures
            match last_open_span(old(self).batch_spans@, id) {
                Some(i) => 0 <= i < old(self).batch_spans@.len() && final(self).batch_spans@ == old(self).batch_spans@.update(
                    i,
                    BatchSpan { id, start: old(self).batch_spans@[i].start, end: Some(ts) },
                ),
                None => final(self).batch_spans@ == old(self).batch_spans@,
            },
            final(self).window == old(self).window,
            final(self).pause == old(self).pause,
            final(self).frozen_now == old(self).frozen_now,
            final(self).scrub == old(self).scrub,
            final(self).events == old(self).events,
            final(self).max_events == old(self).max_events,
            final(self).node_life == old(self).node_life,
    {
        let mut i: usize = self.batch_spans.len();
        assert(self.batch_spans@.take(i as int) =~= self.batch_spans@);
        while i > 0
            invariant
                i <= self.batch_spans.len(),
                self.batch_spans@ == old(self).batch_spans@,
                last_open_span(self.batch_spans@, id) == last_open_span(
                    self.batch_spans@.take(i as int),
                    id,
                ),
                self.window == old(self).window,
                self.pause == old(self).pause,
                self.frozen_now == old(self).frozen_now,
                self.scrub == old(self).scrub,
                self.events == old(self).events,
                self.max_events == old(self).max_events,
                self.node_life == old(self).node_life,
            decreases i,
        {
            let ghost spans = self.batch_spans@;
            proof {
                assert(spans.take(i as int).drop_last() =~= spans.take(i - 1));
                assert(spans.take(i as int).last() == spans[i - 1]);
            }
            i -= 1;
            let span = self.batch_spans[i];
            if span.id == id && span.end.is_none() {
                let _ = self.batch_spans.remove(i);
                self.batch_spans.insert(i, BatchSpan { id: span.id, start: span.start, end: Some(ts) });
                assert(self.batch_spans@ =~= spans.update(
                    i as int,
                    BatchSpan { id, start: spans[i as int].start, end: Some(ts) },
                ));
                return ;
            }
        }
        assert(self.batch_spans@.take(0) =~= Seq::<BatchSpan>::empty());
    }

    /// Caps the event buffer at its newest `max_events` events, then drops
    /// every event that is older than the window, and every span that has
    /// ended before it. An open span stays.
    pub fn trim(&mut self, now: u64)
        ensures
            final(self).events@ == newest(old(self).events@, old(self).max_events as nat).filter(
                event_within(back_from(now, old(self).window)),
            ),
            final(self).batch_spans@ == old(self).batch_spans@.filter(
                span_alive(back_from(now, old(self).window)),
            ),
            final(self).events@.len() <= old(self).max_events,
            forall|i: int|
                0 <= i < final(self).events@.len() ==> now - (#[trigger] final(self).events@[i]).ts <= old(self).window,
            forall|i: int|
                0 <= i < final(self).batch_spans@.len() ==> span_alive(back_from(now, old(self).window))(
                    #[trigger] final(self).batch_spans@[i],
                ),
            final(self).window == old(self).window,
            final(self).pause == old(self).pause,
            final(self).frozen_now == old(self).frozen_now,
            final(self).scrub == old(self).scrub,
            final(self).max_events == old(self).max_events,
            final(self).node_life == old(self).node_life,
    {
        let ghost all = self.events@;
        assert(self.events@ =~= all.skip(0));
        while self.events.len() > self.max_events
            invariant
                self.events@.len() <= all.len(),
                self.events@ == all.skip(all.len() - self.events@.len()),
                all.len() <= self.max_events ==> self.events@.len() == all.len(),
                all.len() > self.max_events ==> self.events@.len() >= self.max_events,
                self.window == old(self).window,
                self.pause == old(self).pause,
                self.frozen_now == old(self).frozen_now,
                self.scrub == old(self).scrub,
                self.max_events == old(self).max_events,
                self.node_life == old(self).node_life,
                self.batch_spans == old(self).batch_spans,
            decreases self.events.len(),
        {
            let _ = self.events.pop_front();
            assert(self.events@ =~= all.skip(all.len() - self.events@.len()));
        }
        let ghost capped = self.events@;
        assert(capped =~= newest(all, self.max_events as nat));
        let start = self.window_start(now);
        let ghost within = event_within(start);
        let n = self.events.len();
        let mut i: usize = 0;
        proof {
            reveal(Seq::filter);
            assert(capped.take(0) =~= Seq::<TimelineEvt>::empty());
            assert(capped.take(0).filter(within) =~= Seq::<TimelineEvt>::empty());
            assert(self.events@ =~= capped.skip(0) + capped.take(0).filter(within));
        }
        while i < n
            invariant
                i <= n,
                n == capped.len(),
                within == event_within(start),
                self.events@ == capped.skip(i as int) + capped.take(i as int).filter(within),
                self.window == old(self).window,
                self.pause == old(self).pause,
                self.frozen_now == old(self).frozen_now,
                self.scrub == old(self).scrub,
                self.max_events == old(self).max_events,
                self.node_life == old(self).node_life,
                self.batch_spans == old(self).batch_spans,
            decreases n - i,
        {
            let ghost kept = capped.take(i as int).filter(within);
            proof {
                assert(self.events@[0] == capped[i as int]);
            }
            match self.events.pop_front() {
                Some(evt) => {
                    proof {
                        assert(self.events@ =~= capped.skip(i + 1) + kept);
                        assert(capped.take(i + 1) =~= capped.take(i as int).push(evt));
                        capped.take(i as int).lemma_filter_push(evt, within);
                    }
                    if evt.ts >= start {
                        self.events.push_back(evt);
                        proof {
                            assert(self.events@ =~= capped.skip(i + 1) + kept.push(evt));
                        }
                    }
                },
                None => {},
            }
            i += 1;
        }
        let ghost spans = self.batch_spans@;
        let ghost alive = span_alive(start);
        let m = self.batch_spans.len();
        let mut j: usize = 0;
        proof {
            assert(capped.take(n as int) =~= capped);
            assert(self.events@ =~= capped.filter(within));
            reveal(Seq::filter);
            assert(spans.take(0) =~= Seq::<BatchSpan>::empty());
            assert(spans.take(0).filter(alive) =~= Seq::<BatchSpan>::empty());
            assert(self.batch_spans@ =~= spans.skip(0) + spans.take(0).filter(alive));
        }
        while j < m
            invariant
                j <= m,
                m == spans.len(),
                alive == span_alive(start),
                self.batch_spans@ == spans.skip(j as int) + spans.take(j as int).filter(alive),
                self.events@ == capped.filter(within),
                self.window == old(self).window,
                self.pause == old(self).pause,
                self.frozen_now == old(self).frozen_now,
                self.scrub == old(self).scrub,
                self.max_events == old(self).max_events,
                self.node_life == old(self).node_life,
            decreases m - j,
        {
            let ghost kept = spans.take(j as int).filter(alive);
            proof {
                assert(self.batch_spans@[0] == spans[j as int]);
            }
            match self.batch_spans.pop_front() {
                Some(span) => {
                    proof {
                        assert(self.batch_spans@ =~= spans.skip(j + 1) + kept);
                        assert(spans.take(j + 1) =~= spans.take(j as int).push(span));
                        spans.take(j as int).lemma_filter_push(span, alive);
                    }
                    let ended = match span.end {
                        Some(end) => end < start,
                        None => false,
                    };
                    if !ended {
                        self.batch_spans.push_back(span);
                        proof {
                            assert(self.batch_spans@ =~= spans.skip(j + 1) + kept.push(span));
                        }
                    }
                },
                None => {},
            }
            j += 1;
        }
        proof {
            assert(spans.take(m as int) =~= spans);
            assert(self.batch_spans@ =~= spans.filter(alive));
            capped.lemma_filter_len(within);
            assert forall|i: int| 0 <= i < self.events@.len() implies now - (#[trigger] self.events@[i]).ts
                <= self.window by {
                capped.lemma_filter_pred(within, i);
            }
            assert forall|i: int| 0 <= i < self.batch_spans@.len() implies alive(
                #[trigger] self.batch_spans@[i],
            ) by {
                spans.lemma_filter_pred(alive, i);
            }
        }
    }

    /// The stretch of the life of the node `id` that lies in the window
    /// when the timeline shows `now`; none for an unknown node or a life
    /// that has no part in the window.
    pub fn node_life_interval(&self, id: &NodeId, now: u64) -> (r: Option<(u64, u64)>)
        requires
            self.wf(),
        ensures
            r == if self.node_life@.contains_key(id@) {
                life_interval(self.node_life@[id@], back_from(now, self.window), now)
            } else {
                None
            },
    {
        match self.node_life.get(id) {
            None => None,
            Some(life) => {
                let window_start = self.window_start(now);
                let start = if life.first_seen < window_start {
                    window_start
                } else {
                    life.first_seen
                };
                let mut end = match life.removed_at {
                    Some(r) => r,
                    None => now,
                };
                if end > now {
                    end = now;
                }
                if end <= start {
                    None
                } else {
                    Some((start, end))
                }
            },
        }
    }

    /// The last span of the batch `id`, open or closed.
    pub fn active_batch_span(&self, id: u64) -> (r: Option<BatchSpan>)
        ensures
            r == last_span(self.batch_spans@, id),
    {
        let mut i: usize = self.batch_spans.len();
        assert(self.batch_spans@.take(i as int) =~= self.batch_spans@);
        while i > 0
            invariant
                i <= self.batch_spans.len(),
                last_span(self.batch_spans@, id) == last_span(self.batch_spans@.take(i as int), id),
            decreases i,
        {
            let ghost spans = self.batch_spans@;
            proof {
                assert(spans.take(i as int).drop_last() =~= spans.take(i - 1));
                assert(spans.take(i as int).last() == spans[i - 1]);
            }
            i -= 1;
            let span = self.batch_spans[i];
            if span.id == id {
                return Some(span);
            }
        }
        assert(self.batch_spans@.take(0) =~= Seq::<BatchSpan>::empty());
        None
    }
}

} // verus!
