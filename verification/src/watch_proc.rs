//! The rules of the process watcher: which processes have come and gone
//! between two looks, and what the batch says that tells of them.

use vstd::prelude::*;
use crate::watch_fs::is_batch;
use crate::wire::{
    delta_of, id_process, process_id_text, Delta, DeltaView, Edge, Msg, Node, NodeId, NodeView,
};

verus! {

/// How long the watcher waits between two looks, in milliseconds.
pub const POLL_PERIOD_MS: u64 = 750;

/// The number of the first batch of the process watcher.
pub const FIRST_BATCH_ID: u64 = 1;

/// After how many looks the user database is read again.
pub const PASSWD_REFRESH_EVERY: u64 = 80;

/// Whether the user database is read again at the look number `tick`:
/// at every eightieth.
pub fn passwd_refresh_due(tick: u64) -> (due: bool)
    ensures
        due == (tick % PASSWD_REFRESH_EVERY == 0),
{
    tick % PASSWD_REFRESH_EVERY == 0
}

/// Whether a list of process numbers holds a number.
pub fn has_pid(pids: &Vec<i32>, pid: i32) -> (r: bool)
    ensures
        r == pids@.contains(pid),
{
    let mut i: usize = 0;
    while i < pids.len()
        invariant
            i <= pids.len(),
            forall|j: int| 0 <= j < i ==> pids@[j] != pid,
        decreases pids.len() - i,
    {
        if pids[i] == pid {
            return true;
        }
        i += 1;
    }
    false
}

/// The numbers of `a` that `b` does not hold, each once, in the order of `a`.
pub fn pids_without(a: &Vec<i32>, b: &Vec<i32>) -> (out: Vec<i32>)
    ensures
        out@.no_duplicates(),
        forall|p: i32| out@.contains(p) <==> a@.contains(p) && !b@.contains(p),
{
    let mut out: Vec<i32> = Vec::new();
    let mut i: usize = 0;
    while i < a.len()
        invariant
            i <= a.len(),
            out@.no_duplicates(),
            forall|p: i32| out@.contains(p) <==> a@.take(i as int).contains(p) && !b@.contains(p),
        decreases a.len() - i,
    {
        let pid = a[i];
        let ghost prev = a@.take(i as int);
        let ghost before = out@;
        let fresh = !has_pid(b, pid) && !has_pid(&out, pid);
        if fresh {
            out.push(pid);
        }
        proof {
            let next = a@.take(i + 1);
            assert(next =~= prev.push(pid));
            assert forall|p: i32| next.contains(p) <==> prev.contains(p) || p == pid by {
                if prev.contains(p) {
                    let k = choose|k: int| 0 <= k < prev.len() && prev[k] == p;
                    assert(next[k] == p);
                }
                if p == pid {
                    assert(next[i as int] == p);
                }
                if next.contains(p) {
                    let k = choose|k: int| 0 <= k < next.len() && next[k] == p;
                    if k < i {
                        assert(prev[k] == p);
                    }
                }
            }
            if fresh {
                assert forall|p: i32| out@.contains(p) <==> before.contains(p) || p == pid by {
                    if before.contains(p) {
                        let k = choose|k: int| 0 <= k < before.len() && before[k] == p;
                        assert(out@[k] == p);
                    }
                    if p == pid {
                        assert(out@[before.len() as int] == p);
                    }
                    if out@.contains(p) {
                        let k = choose|k: int| 0 <= k < out@.len() && out@[k] == p;
                        if k < before.len() {
                            assert(before[k] == p);
                        }
                    }
                }
                assert forall|x: int, y: int| 0 <= x < out@.len() && 0 <= y < out@.len() && x != y implies out@[x]
                    != out@[y] by {
                    if x == before.len() {
                        assert(before[y] == out@[y]);
                        assert(before.contains(out@[y]));
                    } else if y == before.len() {
                        assert(before[x] == out@[x]);
                        assert(before.contains(out@[x]));
                    } else {
                        assert(before[x] != before[y]);
                    }
                }
            }
            assert forall|p: i32| out@.contains(p) <==> next.contains(p) && !b@.contains(p) by {
                assert(before.contains(p) <==> prev.contains(p) && !b@.contains(p));
            }
        }
        i += 1;
    }
    proof {
        assert(a@.take(a.len() as int) =~= a@);
    }
    out
}

/// The processes that have come and those that have gone between two
/// looks: those of `cur` that `prev` does not hold, and those of `prev`
/// that `cur` does not hold.
pub fn diff_pids(prev: &Vec<i32>, cur: &Vec<i32>) -> (r: (Vec<i32>, Vec<i32>))
    ensures
        r.0@.no_duplicates(),
        r.1@.no_duplicates(),
        forall|p: i32| r.0@.contains(p) <==> cur@.contains(p) && !prev@.contains(p),
        forall|p: i32| r.1@.contains(p) <==> prev@.contains(p) && !cur@.contains(p),
{
    (pids_without(cur, prev), pids_without(prev, cur))
}

/// A process that has come, with what could be gathered of it.
pub struct Arrival {
    pub pid: i32,
    pub detail: Option<(Vec<(NodeId, Node)>, Vec<Edge>)>,
}

/// The node that stands for a process of which nothing could be read.
pub open spec fn placeholder(pid: i32) -> NodeView {
    NodeView::Process { pid, ppid: 0, exe: "<unknown>"@, cmdline: "<new>"@, uid: 0 }
}

/// The upserts of a list of nodes.
pub open spec fn node_upserts(nodes: Seq<(NodeId, Node)>) -> Seq<DeltaView> {
    Seq::new(nodes.len(), |i: int| DeltaView::UpsertNode { id: nodes[i].0@, node: nodes[i].1@ })
}

/// The upserts of a list of edges.
pub open spec fn edge_upserts(edges: Seq<Edge>) -> Seq<DeltaView> {
    Seq::new(edges.len(), |i: int| DeltaView::UpsertEdge { edge: edges[i]@ })
}

/// What a batch says of a process that has come: its nodes and then its
/// edges, or a placeholder where nothing could be gathered.
pub open spec fn arrival_deltas(node_id: Seq<char>, a: Arrival) -> Seq<DeltaView> {
    match a.detail {
        Some((nodes, edges)) => node_upserts(nodes@) + edge_upserts(edges@),
        None => seq![
            DeltaView::UpsertNode {
                id: process_id_text(node_id, a.pid as int),
                node: placeholder(a.pid),
            },
        ],
    }
}

/// What a batch says of the processes that have come, in their order.
pub open spec fn arrivals_deltas(node_id: Seq<char>, arrivals: Seq<Arrival>) -> Seq<DeltaView>
    decreases arrivals.len(),
{
    if arrivals.len() == 0 {
        Seq::<DeltaView>::empty()
    } else {
        arrivals_deltas(node_id, arrivals.drop_last()) + arrival_deltas(node_id, arrivals.last())
    }
}

/// What a batch says of the processes that have gone: the removal of each.
pub open spec fn departures(node_id: Seq<char>, gone: Seq<i32>) -> Seq<DeltaView> {
    Seq::new(gone.len(), |i: int| DeltaView::RemoveNode { id: process_id_text(node_id, gone[i] as int) })
}

/// The deltas of a list of messages.
pub open spec fn deltas_of(msgs: Seq<Msg>) -> Seq<Option<DeltaView>> {
    Seq::new(msgs.len(), |i: int| delta_of(msgs[i]))
}

/// The deltas, each as the delta of a message.
pub open spec fn as_events(deltas: Seq<DeltaView>) -> Seq<Option<DeltaView>> {
    Seq::new(deltas.len(), |i: int| Some(deltas[i]))
}

fn push_event(msgs: &mut Vec<Msg>, delta: Delta)
    ensures
        deltas_of(final(msgs)@) == deltas_of(old(msgs)@).push(Some(delta@)),
{
    msgs.push(Msg::Event { delta });
    assert(deltas_of(msgs@) =~= deltas_of(old(msgs)@).push(Some(delta@)));
}

/// Whether a batch is due: only if a process has come or gone.
pub fn batch_due(new_pids: &Vec<i32>, gone_pids: &Vec<i32>) -> (due: bool)
    ensures
        due == (new_pids.len() > 0 || gone_pids.len() > 0),
{
    new_pids.len() > 0 || gone_pids.len() > 0
}

/// The batch that tells of the processes that have come and gone: the
/// begin of the batch, what is known of each process that has come, the
/// removal of each that has gone, and the end of the batch.
pub fn proc_batch(node_id: &str, batch_id: u64, arrivals: &Vec<Arrival>, gone: &Vec<i32>) -> (msgs: Vec<
    Msg,
>)
    ensures
        is_batch(
            msgs@,
            batch_id,
            arrivals_deltas(node_id@, arrivals@) + departures(node_id@, gone@),
        ),
{
    let mut msgs: Vec<Msg> = Vec::new();
    let ghost begin = Some(DeltaView::BatchBegin { id: batch_id });
    push_event(&mut msgs, Delta::BatchBegin { id: batch_id });
    proof {
        assert(deltas_of(msgs@) =~= seq![begin] + as_events(Seq::<DeltaView>::empty()));
        assert(arrivals@.take(0) =~= Seq::<Arrival>::empty());
    }
    let mut i: usize = 0;
    while i < arrivals.len()
        invariant
            i <= arrivals.len(),
            begin == Some(DeltaView::BatchBegin { id: batch_id }),
            deltas_of(msgs@) == seq![begin] + as_events(
                arrivals_deltas(node_id@, arrivals@.take(i as int)),
            ),
        decreases arrivals.len() - i,
    {
        let arrival = &arrivals[i];
        let ghost done = arrivals_deltas(node_id@, arrivals@.take(i as int));
        proof {
            assert(arrivals@.take(i + 1).drop_last() =~= arrivals@.take(i as int));
            assert(arrivals@.take(i + 1).last() == *arrival);
        }
        match &arrival.detail {
            Some(detail) => {
                let nodes = &detail.0;
                let edges = &detail.1;
                let mut k: usize = 0;
                proof {
                    assert(node_upserts(nodes@).take(0) =~= Seq::<DeltaView>::empty());
                    assert(deltas_of(msgs@) =~= seq![begin] + as_events(
                        done + node_upserts(nodes@).take(0),
                    ));
                }
                while k < nodes.len()
                    invariant
                        k <= nodes.len(),
                        deltas_of(msgs@) == seq![begin] + as_events(
                            done + node_upserts(nodes@).take(k as int),
                        ),
                    decreases nodes.len() - k,
                {
                    let entry = &nodes[k];
                    push_event(
                        &mut msgs,
                        Delta::UpsertNode { id: entry.0.clone(), node: entry.1.clone() },
                    );
                    proof {
                        assert(node_upserts(nodes@).take(k + 1) =~= node_upserts(nodes@).take(
                            k as int,
                        ).push(node_upserts(nodes@)[k as int]));
                        assert(deltas_of(msgs@) =~= seq![begin] + as_events(
                            done + node_upserts(nodes@).take(k + 1),
                        ));
                    }
                    k += 1;
                }
                let mut e: usize = 0;
                proof {
                    assert(node_upserts(nodes@).take(nodes.len() as int) =~= node_upserts(nodes@));
                    assert(edge_upserts(edges@).take(0) =~= Seq::<DeltaView>::empty());
                    assert(deltas_of(msgs@) =~= seq![begin] + as_events(
                        done + node_upserts(nodes@) + edge_upserts(edges@).take(0),
                    ));
                }
                while e < edges.len()
                    invariant
                        e <= edges.len(),
                        deltas_of(msgs@) == seq![begin] + as_events(
                            done + node_upserts(nodes@) + edge_upserts(edges@).take(e as int),
                        ),
                    decreases edges.len() - e,
                {
                    push_event(&mut msgs, Delta::UpsertEdge { edge: edges[e].clone() });
                    proof {
                        assert(edge_upserts(edges@).take(e + 1) =~= edge_upserts(edges@).take(
                            e as int,
                        ).push(edge_upserts(edges@)[e as int]));
                        assert(deltas_of(msgs@) =~= seq![begin] + as_events(
                            done + node_upserts(nodes@) + edge_upserts(edges@).take(e + 1),
                        ));
                    }
                    e += 1;
                }
                proof {
                    assert(edge_upserts(edges@).take(edges.len() as int) =~= edge_upserts(edges@));
                    assert(done + node_upserts(nodes@) + edge_upserts(edges@) =~= done + arrival_deltas(
                        node_id@,
                        *arrival,
                    ));
                }
            },
            None => {
                let id = id_process(node_id, arrival.pid);
                let node = Node::Process {
                    pid: arrival.pid,
                    ppid: 0,
                    exe: String::from_str("<unknown>"),
                    cmdline: String::from_str("<new>"),
                    uid: 0,
                };
                push_event(&mut msgs, Delta::UpsertNode { id, node });
                proof {
                    assert(deltas_of(msgs@) =~= seq![begin] + as_events(
                        done + arrival_deltas(node_id@, *arrival),
                    ));
                }
            },
        }
        i += 1;
    }
    let ghost came = arrivals_deltas(node_id@, arrivals@);
    let mut j: usize = 0;
    proof {
        assert(arrivals@.take(arrivals.len() as int) =~= arrivals@);
        assert(departures(node_id@, gone@).take(0) =~= Seq::<DeltaView>::empty());
        assert(deltas_of(msgs@) =~= seq![begin] + as_events(
            came + departures(node_id@, gone@).take(0),
        ));
    }
    while j < gone.len()
        invariant
            j <= gone.len(),
            deltas_of(msgs@) == seq![begin] + as_events(
                came + departures(node_id@, gone@).take(j as int),
            ),
        decreases gone.len() - j,
    {
        push_event(&mut msgs, Delta::RemoveNode { id: id_process(node_id, gone[j]) });
        proof {
            assert(departures(node_id@, gone@).take(j + 1) =~= departures(node_id@, gone@).take(
                j as int,
            ).push(departures(node_id@, gone@)[j as int]));
            assert(deltas_of(msgs@) =~= seq![begin] + as_events(
                came + departures(node_id@, gone@).take(j + 1),
            ));
        }
        j += 1;
    }
    proof {
        assert(departures(node_id@, gone@).take(gone.len() as int) =~= departures(node_id@, gone@));
    }
    let ghost body = came + departures(node_id@, gone@);
    let ghost so_far = msgs@;
    push_event(&mut msgs, Delta::BatchEnd { id: batch_id });
    proof {
        let all = deltas_of(msgs@);
        assert(all.len() == body.len() + 2);
        assert(all[0] == begin);
        assert forall|i: int| 0 <= i < body.len() implies delta_of(#[trigger] msgs@[i + 1]) == Some(
            body[i],
        ) by {
            assert(all[i + 1] == (seq![begin] + as_events(body))[i + 1]);
        }
        assert(all[msgs@.len() - 1] == Some(DeltaView::BatchEnd { id: batch_id }));
    }
    msgs
}

} // verus!
