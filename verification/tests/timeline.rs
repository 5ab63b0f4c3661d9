use spacegraph::state::GraphState;
use spacegraph::timeline::{BatchSpan, NodeLife, TimelineEvt, TimelineEvtKind, TimelineState};
use spacegraph::wire::NodeId;

fn evt(ts: u64) -> TimelineEvt {
    TimelineEvt { ts, kind: TimelineEvtKind::NodeUpsert, a: None, b: None, edge_kind: None }
}

#[test]
fn timeline_trims_old_events() {
    let mut st = GraphState::default();
    st.timeline.pause = true;
    let now: u64 = 1_000_000;
    st.timeline.frozen_now = Some(now);
    st.timeline.window = 10_000;

    st.timeline.events.push_back(evt(now - 20_000));
    st.timeline.events.push_back(evt(now - 5_000));

    st.tick_timeline(now + 123);
    assert_eq!(st.timeline.events.len(), 1);
}

#[test]
fn timeline_caps_max_events() {
    let mut st = GraphState::default();
    st.timeline.pause = true;
    let now: u64 = 1_000_000;
    st.timeline.frozen_now = Some(now);
    st.timeline.max_events = 3;
    st.timeline.window = 60_000;

    for i in 0..5 {
        st.timeline.events.push_back(evt(now - i * 1_000));
    }

    st.tick_timeline(now);
    assert_eq!(st.timeline.events.len(), 3);
}

#[test]
fn pause_freezes_now_and_scrub_moves_back() {
    let mut timeline = TimelineState::default();
    let base: u64 = 1_000_000;
    timeline.window = 30_000;
    timeline.pause = true;
    timeline.frozen_now = Some(base);
    timeline.scrub = 2_500;
    let effective = timeline.effective_now_from(base + 5_000);
    assert_eq!(effective, base - 2_500);
}

#[test]
fn worldline_lifespan_respects_first_seen_and_removed_at() {
    let mut timeline = TimelineState::default();
    let base: u64 = 1_000_000;
    let id = NodeId("node-1".to_string());
    timeline.window = 30_000;
    timeline.record_node_upsert(&id, base);
    timeline.record_node_remove(&id, base + 12_000);

    let now = base + 20_000;
    let (start, end) = timeline.node_life_interval(&id, now).expect("interval");
    assert_eq!(start, base);
    assert_eq!(end, base + 12_000);
}

#[test]
fn batch_spans_open_close_and_trim() {
    let mut timeline = TimelineState::default();
    let base: u64 = 1_000_000;
    timeline.window = 10_000;

    timeline.record_batch_begin(7, base);
    timeline.record_batch_end(7, base + 4_000);

    let span = timeline.active_batch_span(7).expect("span");
    assert_eq!(span.start, base);
    assert_eq!(span.end, Some(base + 4_000));

    let now = base + 25_000;
    timeline.trim(now);
    assert!(timeline.active_batch_span(7).is_none());
}

#[test]
fn timeline_scrub_scenario() {
    let mut timeline = TimelineState::default();
    let t0: u64 = 500_000;
    let id = NodeId("n".to_string());
    timeline.window = 30_000;
    timeline.record_node_upsert(&id, t0);
    timeline.record_node_remove(&id, t0 + 12_000);
    assert_eq!(timeline.node_life_interval(&id, t0 + 20_000), Some((t0, t0 + 12_000)));
    timeline.pause = true;
    timeline.frozen_now = Some(t0 + 5_000);
    timeline.scrub = 2_500;
    assert_eq!(timeline.effective_now_from(t0 + 99_000), t0 + 5_000 - 2_500);
}

#[test]
fn effective_now_follows_the_clock_while_running() {
    let mut timeline = TimelineState::default();
    timeline.window = 10;
    timeline.frozen_now = Some(5);
    timeline.scrub = 3;
    assert_eq!(timeline.effective_now_from(100), 100);
    timeline.pause = true;
    assert_eq!(timeline.effective_now_from(100), 2);
    timeline.scrub = 9;
    assert_eq!(timeline.effective_now_from(100), 0);
    timeline.frozen_now = None;
    assert_eq!(timeline.effective_now_from(100), 91);
}

#[test]
fn a_scrub_beyond_the_window_counts_as_the_window() {
    let mut timeline = TimelineState::default();
    timeline.window = 1_000;
    timeline.pause = true;
    timeline.frozen_now = Some(10_000);
    timeline.scrub = 5_000;
    assert_eq!(timeline.effective_now_from(77_000), 9_000);
    timeline.frozen_now = None;
    assert_eq!(timeline.effective_now_from(77_000), 76_000);
    timeline.window = 0;
    assert_eq!(timeline.effective_now_from(77_000), 77_000);
}

#[test]
fn scrub_is_clamped_to_the_window() {
    let mut timeline = TimelineState::default();
    timeline.window = 30_000;
    timeline.set_scrub(2_500);
    assert_eq!(timeline.scrub, 2_500);
    timeline.set_scrub(45_000);
    assert_eq!(timeline.scrub, 30_000);
    assert_eq!(timeline.window_start(40_000), 10_000);
    assert_eq!(timeline.window_start(20_000), 0);
}

#[test]
fn node_life_registry_rules() {
    let mut t = TimelineState::default();
    let id = NodeId("n".to_string());
    t.record_node_remove(&id, 50);
    assert_eq!(
        t.node_life.get(&id),
        Some(&NodeLife { first_seen: 50, last_seen: 50, removed_at: Some(50) })
    );
    t.record_node_upsert(&id, 40);
    assert_eq!(
        t.node_life.get(&id),
        Some(&NodeLife { first_seen: 40, last_seen: 50, removed_at: Some(50) })
    );
    t.record_node_upsert(&id, 50);
    assert_eq!(
        t.node_life.get(&id),
        Some(&NodeLife { first_seen: 40, last_seen: 50, removed_at: None })
    );
    t.record_node_upsert(&id, 70);
    t.record_node_remove(&id, 60);
    assert_eq!(
        t.node_life.get(&id),
        Some(&NodeLife { first_seen: 40, last_seen: 70, removed_at: Some(60) })
    );
}

#[test]
fn life_interval_is_clipped_to_the_window() {
    let mut t = TimelineState::default();
    t.window = 100;
    let id = NodeId("n".to_string());
    assert_eq!(t.node_life_interval(&id, 1_000), None);
    t.record_node_upsert(&id, 500);
    assert_eq!(t.node_life_interval(&id, 1_000), Some((900, 1_000)));
    assert_eq!(t.node_life_interval(&id, 550), Some((500, 550)));
    assert_eq!(t.node_life_interval(&id, 500), None);
    assert_eq!(t.node_life_interval(&id, 400), None);
    t.record_node_remove(&id, 700);
    assert_eq!(t.node_life_interval(&id, 750), Some((650, 700)));
    assert_eq!(t.node_life_interval(&id, 800), None);
    assert_eq!(t.node_life_interval(&id, 600), Some((500, 600)));
}

#[test]
fn batch_end_closes_the_last_open_span_of_its_id() {
    let mut t = TimelineState::default();
    t.record_batch_begin(1, 10);
    t.record_batch_begin(2, 20);
    t.record_batch_begin(1, 30);
    t.record_batch_end(1, 40);
    t.record_batch_end(3, 45);
    let spans: Vec<BatchSpan> = t.batch_spans.iter().copied().collect();
    assert_eq!(
        spans,
        vec![
            BatchSpan { id: 1, start: 10, end: None },
            BatchSpan { id: 2, start: 20, end: None },
            BatchSpan { id: 1, start: 30, end: Some(40) },
        ]
    );
    t.record_batch_end(1, 50);
    assert_eq!(t.batch_spans[0], BatchSpan { id: 1, start: 10, end: Some(50) });
    assert_eq!(t.active_batch_span(1), Some(BatchSpan { id: 1, start: 30, end: Some(40) }));
    assert_eq!(t.active_batch_span(2), Some(BatchSpan { id: 2, start: 20, end: None }));
    assert_eq!(t.active_batch_span(9), None);
}

#[test]
fn trim_drops_every_old_event_and_every_ended_span() {
    let mut t = TimelineState::default();
    t.window = 100;
    t.max_events = 10;
    t.record_batch_begin(1, 10);
    t.record_batch_end(1, 20);
    t.record_batch_begin(2, 30);
    t.record_batch_begin(3, 40);
    t.record_batch_end(3, 50);
    for ts in [100, 950, 200, 990] {
        t.events.push_back(evt(ts));
    }
    t.trim(1_000);
    let kept: Vec<u64> = t.events.iter().map(|e| e.ts).collect();
    assert_eq!(kept, vec![950, 990]);
    let spans: Vec<u64> = t.batch_spans.iter().map(|s| s.id).collect();
    assert_eq!(spans, vec![2]);
    t.record_batch_begin(4, 950);
    t.record_batch_end(4, 960);
    t.trim(1_000);
    let spans: Vec<u64> = t.batch_spans.iter().map(|s| s.id).collect();
    assert_eq!(spans, vec![2, 4]);
    for e in t.events.iter() {
        assert!(1_000 - e.ts <= t.window);
    }
    assert!(t.events.len() <= t.max_events);
}

#[test]
fn after_trim_no_event_in_order_is_older_than_the_window() {
    let mut t = TimelineState::default();
    t.window = 30;
    t.max_events = 4;
    for ts in [1, 5, 60, 75, 80, 90, 100] {
        t.events.push_back(evt(ts));
    }
    t.trim(100);
    let kept: Vec<u64> = t.events.iter().map(|e| e.ts).collect();
    assert_eq!(kept, vec![75, 80, 90, 100]);
    for e in t.events.iter() {
        assert!(100 - e.ts <= t.window);
    }
}
