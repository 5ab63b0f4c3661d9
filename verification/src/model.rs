//! The viewer's graph: nodes, raw edges, the times at which nodes were last
//! seen, and two indices derived from the raw edges. The adjacency index
//! lists, for every node, the edges that touch it; the aggregation index
//! counts, for every source, target and class of edge, the upserts seen and
//! the raw edges currently present.

use vstd::prelude::*;
use smallvec::SmallVec;
use crate::collections::{distinct_keys, has_key, key_set, position_of, Key, VecMap, VecSet};
use crate::text::{push_signed_decimal, push_str, signed_decimal, string_of};
use crate::wire::{Edge, EdgeKind, EdgeKindView, EdgeView, Node, NodeId};

verus! {

/// The class of an edge: its kind without descriptor and mode.
#[derive(Debug, Clone, Copy, PartialEq, Eq, Hash, Structural)]
pub enum EdgeKindClass {
    Opens,
    Execs,
    RunsAs,
}

/// The class of an edge kind, by value.
pub open spec fn class_of(kind: EdgeKindView) -> EdgeKindClass {
    match kind {
        EdgeKindView::Opens { .. } => EdgeKindClass::Opens,
        EdgeKindView::Execs => EdgeKindClass::Execs,
        EdgeKindView::RunsAs => EdgeKindClass::RunsAs,
    }
}

impl EdgeKindClass {
    /// The class of an edge kind.
    pub fn from_kind(kind: &EdgeKind) -> (class: Self)
        ensures
            class == class_of(kind@),
    {
        match kind {
            EdgeKind::Opens { .. } => EdgeKindClass::Opens,
            EdgeKind::Execs => EdgeKindClass::Execs,
            EdgeKind::RunsAs => EdgeKindClass::RunsAs,
        }
    }
}

/// The key of an aggregated edge: source, target and class.
#[derive(Debug, PartialEq, Eq, Hash)]
pub struct AggEdgeKey {
    pub from: NodeId,
    pub to: NodeId,
    pub class: EdgeKindClass,
}

/// An aggregation key by value.
pub struct AggKeyView {
    pub from: Seq<char>,
    pub to: Seq<char>,
    pub class: EdgeKindClass,
}

/// The aggregation key under which an edge is counted.
pub open spec fn key_of(e: EdgeView) -> AggKeyView {
    AggKeyView { from: e.from, to: e.to, class: class_of(e.kind) }
}

impl View for AggEdgeKey {
    type V = AggKeyView;

    open spec fn view(&self) -> AggKeyView {
        AggKeyView { from: self.from@, to: self.to@, class: self.class }
    }
}

impl Clone for AggEdgeKey {
    fn clone(&self) -> (r: Self)
        ensures
            r == *self,
    {
        AggEdgeKey { from: self.from.clone(), to: self.to.clone(), class: self.class }
    }
}

impl Key for AggEdgeKey {
    fn same(&self, other: &Self) -> (r: bool) {
        self.from.same(&other.from) && self.to.same(&other.to) && self.class == other.class
    }

    fn duplicate(&self) -> (r: Self) {
        self.clone()
    }
}

impl AggEdgeKey {
    /// The key under which `edge` is counted.
    pub fn new(edge: &Edge) -> (key: Self)
        ensures
            key@ == key_of(edge@),
            key.from == edge.from,
            key.to == edge.to,
    {
        AggEdgeKey {
            from: edge.from.clone(),
            to: edge.to.clone(),
            class: EdgeKindClass::from_kind(&edge.kind),
        }
    }
}

/// Counters of one aggregated edge. Times are in milliseconds.
#[derive(Debug, Clone, Copy, PartialEq, Eq, Structural)]
pub struct EdgeStats {
    /// How many upserts were seen under the key; it stops at `u64::MAX`.
    pub count: u64,
    pub first_ts: u64,
    pub last_ts: u64,
}

/// All raw edges with one source, target and class, taken together.
#[derive(Debug, PartialEq, Eq)]
pub struct AggEdge {
    pub key: AggEdgeKey,
    pub stats: EdgeStats,
    /// The kind of the edge upserted last, with descriptor and mode.
    pub last_kind: EdgeKind,
    /// How many raw edges are present under the key.
    pub live_count: usize,
}

/// An aggregated edge by value.
pub struct AggEdgeView {
    pub key: AggKeyView,
    pub stats: EdgeStats,
    pub last_kind: EdgeKindView,
    pub live_count: nat,
}

impl View for AggEdge {
    type V = AggEdgeView;

    open spec fn view(&self) -> AggEdgeView {
        AggEdgeView {
            key: self.key@,
            stats: self.stats,
            last_kind: self.last_kind@,
            live_count: self.live_count as nat,
        }
    }
}

impl Clone for AggEdge {
    fn clone(&self) -> (r: Self)
        ensures
            r == *self,
    {
        AggEdge {
            key: self.key.clone(),
            stats: self.stats,
            last_kind: self.last_kind.clone(),
            live_count: self.live_count,
        }
    }
}

/// The name of an edge kind.
pub open spec fn kind_name(kind: EdgeKindView) -> Seq<char> {
    match kind {
        EdgeKindView::Opens { .. } => "opens"@,
        EdgeKindView::Execs => "execs"@,
        EdgeKindView::RunsAs => "runs_as"@,
    }
}

/// The name of an edge class.
pub open spec fn class_name(class: EdgeKindClass) -> Seq<char> {
    match class {
        EdgeKindClass::Opens => "opens"@,
        EdgeKindClass::Execs => "execs"@,
        EdgeKindClass::RunsAs => "runs_as"@,
    }
}

/// One sentence on what an edge of this kind means.
pub open spec fn kind_explanation(kind: EdgeKindView) -> Seq<char> {
    match kind {
        EdgeKindView::Opens { fd, mode } => "process opened file (fd="@ + signed_decimal(fd as int)
            + ", mode="@ + mode + ")"@,
        EdgeKindView::Execs => "process execs file (exe)"@,
        EdgeKindView::RunsAs => "process runs as user (uid)"@,
    }
}

/// The name of an edge kind: `opens`, `execs` or `runs_as`.
pub fn edge_kind_name(k: &EdgeKind) -> (name: &'static str)
    ensures
        name@ == kind_name(k@),
{
    match k {
        EdgeKind::Opens { .. } => "opens",
        EdgeKind::Execs => "execs",
        EdgeKind::RunsAs => "runs_as",
    }
}

/// The name of an edge class: `opens`, `execs` or `runs_as`.
pub fn edge_class_name(k: EdgeKindClass) -> (name: &'static str)
    ensures
        name@ == class_name(k),
{
    match k {
        EdgeKindClass::Opens => "opens",
        EdgeKindClass::Execs => "execs",
        EdgeKindClass::RunsAs => "runs_as",
    }
}

/// One sentence on what an edge of this kind means.
pub fn edge_explain(k: &EdgeKind) -> (text: String)
    ensures
        text@ == kind_explanation(k@),
{
    let mut out: Vec<char> = Vec::new();
    match k {
        EdgeKind::Opens { fd, mode } => {
            push_str(&mut out, "process opened file (fd=");
            push_signed_decimal(&mut out, *fd as i64);
            push_str(&mut out, ", mode=");
            push_str(&mut out, mode.as_str());
            push_str(&mut out, ")");
        },
        EdgeKind::Execs => {
            push_str(&mut out, "process execs file (exe)");
        },
        EdgeKind::RunsAs => {
            push_str(&mut out, "process runs as user (uid)");
        },
    }
    string_of(&out)
}

/// The edges that touch one node. The list keeps its first eight edges
/// inline and moves to the heap beyond that.
#[verifier::external_body]
pub struct EdgeList {
    inner: SmallVec<[Edge; 8]>,
}

/// The edges that an edge list holds, in the order in which they were pushed.
pub uninterp spec fn edge_list_items(list: EdgeList) -> Seq<Edge>;

/// An empty edge list.
///
/// Wraps `SmallVec::new`, which constructs an empty vector.
#[verifier::external_body]
fn edge_list_new() -> (list: EdgeList)
    ensures
        edge_list_items(list) == Seq::<Edge>::empty(),
{
    EdgeList { inner: SmallVec::new() }
}

/// Appends an edge to a list.
///
/// Wraps `SmallVec::push`, which appends the item behind those already held.
/// It grows the storage when full; that fails only where memory does.
#[verifier::external_body]
fn edge_list_push(list: &mut EdgeList, edge: Edge)
    ensures
        edge_list_items(*final(list)) == edge_list_items(*old(list)).push(edge),
{
    list.inner.push(edge)
}

/// Drops from a list every edge that is the same edge as `edge`.
///
/// Wraps `SmallVec::retain`, which keeps exactly the items for which the
/// closure returns true, in their order.
#[verifier::external_body]
fn edge_list_drop(list: &mut EdgeList, edge: &Edge)
    ensures
        edge_list_items(*final(list)) == edge_list_items(*old(list)).filter(not_edge(edge@)),
{
    list.inner.retain(|e| !e.same(edge))
}

/// The number of edges in a list.
///
/// Wraps `SmallVec::len`, the number of items held.
#[verifier::external_body]
fn edge_list_len(list: &EdgeList) -> (n: usize)
    ensures
        n == edge_list_items(*list).len(),
{
    list.inner.len()
}

/// The edge at a position of a list.
///
/// Wraps the slice index of `SmallVec`, which borrows the item at `i`.
#[verifier::external_body]
fn edge_list_get(list: &EdgeList, i: usize) -> (edge: &Edge)
    requires
        i < edge_list_items(*list).len(),
    ensures
        *edge == edge_list_items(*list)[i as int],
{
    &list.inner[i]
}

/// The test that an edge is another edge than `gone`.
pub open spec fn not_edge(gone: EdgeView) -> spec_fn(Edge) -> bool {
    |x: Edge| x@ != gone
}

/// Whether an edge starts or ends at a node.
pub open spec fn incident(e: EdgeView, id: Seq<char>) -> bool {
    e.from == id || e.to == id
}

/// The raw edges that are counted under an aggregation key.
pub open spec fn live_edges(edges: Set<EdgeView>, k: AggKeyView) -> Set<EdgeView> {
    edges.filter(|e: EdgeView| key_of(e) == k)
}

/// The adjacency lists after `edge` was added to the list of `id`.
pub open spec fn lists_add(lists: Map<Seq<char>, Seq<Edge>>, id: Seq<char>, edge: Edge) -> Map<
    Seq<char>,
    Seq<Edge>,
> {
    if lists.contains_key(id) {
        lists.insert(id, lists[id].push(edge))
    } else {
        lists.insert(id, seq![edge])
    }
}

/// The adjacency lists after every copy of the edge `e` left the list of
/// `id`; a list that becomes empty is removed.
pub open spec fn lists_drop(lists: Map<Seq<char>, Seq<Edge>>, id: Seq<char>, e: EdgeView) -> Map<
    Seq<char>,
    Seq<Edge>,
> {
    if lists.contains_key(id) {
        let rest = lists[id].filter(not_edge(e));
        if rest.len() == 0 {
            lists.remove(id)
        } else {
            lists.insert(id, rest)
        }
    } else {
        lists
    }
}

/// The adjacency lists and the raw edges agree: a list holds only raw edges
/// that touch its node, every raw edge is in the lists of both its
/// endpoints, and no list is empty.
pub open spec fn adjacency_agrees(lists: Map<Seq<char>, Seq<Edge>>, edges: Set<EdgeView>) -> bool {
    &&& forall|id: Seq<char>, i: int|
        #![trigger lists[id][i]]
        lists.contains_key(id) && 0 <= i < lists[id].len() ==> edges.contains(lists[id][i]@)
            && incident(lists[id][i]@, id)
    &&& forall|e: EdgeView| #[trigger]
        edges.contains(e) ==> lists.contains_key(e.from) && has_edge(lists[e.from], e)
            && lists.contains_key(e.to) && has_edge(lists[e.to], e)
    &&& forall|id: Seq<char>| #[trigger] lists.contains_key(id) ==> lists[id].len() > 0
}

/// Whether a list holds the edge `e`.
pub open spec fn has_edge(list: Seq<Edge>, e: EdgeView) -> bool {
    exists|i: int| 0 <= i < list.len() && (#[trigger] list[i])@ == e
}

/// The aggregation index and the raw edges agree: every entry is stored
/// under its own key and counts the raw edges under that key, of which there
/// is at least one, and every raw edge is counted.
pub open spec fn aggregation_agrees(aggs: Map<AggKeyView, AggEdgeView>, edges: Set<EdgeView>) -> bool {
    &&& forall|k: AggKeyView| #[trigger]
        aggs.contains_key(k) ==> aggs[k].key == k && aggs[k].live_count > 0 && aggs[k].live_count
            == live_edges(edges, k).len()
    &&& forall|e: EdgeView| #[trigger] edges.contains(e) ==> aggs.contains_key(key_of(e))
}

/// The count of upserts after one more; it stops at `u64::MAX`.
pub open spec fn count_up(count: u64) -> u64 {
    if count < u64::MAX {
        (count + 1) as u64
    } else {
        count
    }
}

/// The aggregation index after an upsert of the edge `e` at time `now`;
/// `inserted` says whether the raw edge was new.
pub open spec fn agg_after_upsert(
    aggs: Map<AggKeyView, AggEdgeView>,
    e: EdgeView,
    now: u64,
    inserted: bool,
) -> Map<AggKeyView, AggEdgeView> {
    let k = key_of(e);
    let add: nat = if inserted {
        1
    } else {
        0
    };
    if aggs.contains_key(k) {
        aggs.insert(
            k,
            AggEdgeView {
                key: k,
                stats: EdgeStats {
                    count: count_up(aggs[k].stats.count),
                    first_ts: aggs[k].stats.first_ts,
                    last_ts: now,
                },
                last_kind: e.kind,
                live_count: aggs[k].live_count + add,
            },
        )
    } else {
        aggs.insert(
            k,
            AggEdgeView {
                key: k,
                stats: EdgeStats { count: 1, first_ts: now, last_ts: now },
                last_kind: e.kind,
                live_count: add,
            },
        )
    }
}

/// The aggregation index after the raw edge `e` was removed: its entry
/// counts one edge less, and is deleted when it counts none.
pub open spec fn agg_after_remove(aggs: Map<AggKeyView, AggEdgeView>, e: EdgeView) -> Map<
    AggKeyView,
    AggEdgeView,
> {
    let k = key_of(e);
    if aggs.contains_key(k) {
        if aggs[k].live_count <= 1 {
            aggs.remove(k)
        } else {
            aggs.insert(
                k,
                AggEdgeView {
                    key: aggs[k].key,
                    stats: aggs[k].stats,
                    last_kind: aggs[k].last_kind,
                    live_count: (aggs[k].live_count - 1) as nat,
                },
            )
        }
    } else {
        aggs
    }
}

proof fn lemma_has_edge_push(list: Seq<Edge>, edge: Edge, e: EdgeView)
    ensures
        has_edge(list.push(edge), edge@),
        has_edge(list, e) ==> has_edge(list.push(edge), e),
{
    assert(list.push(edge)[list.len() as int]@ == edge@);
    if has_edge(list, e) {
        let i = choose|i: int| 0 <= i < list.len() && (#[trigger] list[i])@ == e;
        assert(list.push(edge)[i]@ == e);
    }
}

proof fn lemma_has_edge_filter(list: Seq<Edge>, gone: EdgeView, e: EdgeView)
    requires
        has_edge(list, e),
        e != gone,
    ensures
        has_edge(list.filter(not_edge(gone)), e),
{
    let pred = not_edge(gone);
    let i = choose|i: int| 0 <= i < list.len() && (#[trigger] list[i])@ == e;
    list.lemma_filter_contains(pred, i);
    let rest = list.filter(pred);
    assert(rest.contains(list[i]));
    let j = choose|j: int| 0 <= j < rest.len() && rest[j] == list[i];
    assert(rest[j]@ == e);
}

proof fn lemma_filter_member(list: Seq<Edge>, gone: EdgeView, j: int) -> (i: int)
    requires
        0 <= j < list.filter(not_edge(gone)).len(),
    ensures
        0 <= i < list.len(),
        list[i] == list.filter(not_edge(gone))[j],
        list[i]@ != gone,
{
    let pred = not_edge(gone);
    let rest = list.filter(pred);
    list.lemma_filter_pred(pred, j);
    assert(rest.contains(rest[j]));
    list.lemma_filter_contains_rev(pred, rest[j]);
    assert(list.contains(rest[j]));
    choose|i: int| 0 <= i < list.len() && list[i] == rest[j]
}

/// Adding a new raw edge to the lists of both its endpoints keeps lists and
/// raw edges in agreement.
proof fn lemma_adjacency_add(lists: Map<Seq<char>, Seq<Edge>>, edges: Set<EdgeView>, edge: Edge)
    requires
        adjacency_agrees(lists, edges),
    ensures
        adjacency_agrees(
            lists_add(lists_add(lists, edge.from@, edge), edge.to@, edge),
            edges.insert(edge@),
        ),
{
    let l1 = lists_add(lists, edge.from@, edge);
    let l2 = lists_add(l1, edge.to@, edge);
    let e2 = edges.insert(edge@);
    assert forall|id: Seq<char>, i: int|
        #![trigger l2[id][i]]
        l2.contains_key(id) && 0 <= i < l2[id].len() implies e2.contains(l2[id][i]@) && incident(
        l2[id][i]@,
        id,
    ) by {
        if lists.contains_key(id) && i < lists[id].len() {
            assert(l2[id][i] == lists[id][i]);
        }
    }
    assert forall|e: EdgeView| #[trigger] e2.contains(e) implies l2.contains_key(e.from) && has_edge(
        l2[e.from],
        e,
    ) && l2.contains_key(e.to) && has_edge(l2[e.to], e) by {
        if edges.contains(e) {
            lemma_has_edge_push(lists[e.from], edge, e);
            lemma_has_edge_push(lists[e.to], edge, e);
            lemma_has_edge_push(l1[e.from], edge, e);
            lemma_has_edge_push(l1[e.to], edge, e);
        }
        if e == edge@ {
            if lists.contains_key(edge.from@) {
                lemma_has_edge_push(lists[edge.from@], edge, e);
            } else {
                assert(seq![edge][0]@ == e);
            }
            lemma_has_edge_push(l1[edge.from@], edge, e);
            if l1.contains_key(edge.to@) {
                lemma_has_edge_push(l1[edge.to@], edge, e);
            } else {
                assert(seq![edge][0]@ == e);
            }
        }
    }
}

/// Dropping a raw edge from the lists of both its endpoints keeps lists and
/// raw edges in agreement.
proof fn lemma_adjacency_drop(lists: Map<Seq<char>, Seq<Edge>>, edges: Set<EdgeView>, gone: EdgeView)
    requires
        adjacency_agrees(lists, edges),
    ensures
        adjacency_agrees(
            lists_drop(lists_drop(lists, gone.from, gone), gone.to, gone),
            edges.remove(gone),
        ),
{
    let l1 = lists_drop(lists, gone.from, gone);
    let l2 = lists_drop(l1, gone.to, gone);
    let e2 = edges.remove(gone);
    // every member of a list after the drop was a member before, and is not the edge that left
    assert forall|id: Seq<char>, i: int|
        #![trigger l1[id][i]]
        l1.contains_key(id) && 0 <= i < l1[id].len() implies exists|j: int|
        0 <= j < lists[id].len() && lists[id][j] == l1[id][i] && (id == gone.from ==> l1[id][i]@
            != gone) by {
        if id == gone.from {
            let j = lemma_filter_member(lists[id], gone, i);
            assert(lists[id][j] == l1[id][i]);
        } else {
            assert(lists[id][i] == l1[id][i]);
        }
    }
    assert forall|id: Seq<char>, i: int|
        #![trigger l2[id][i]]
        l2.contains_key(id) && 0 <= i < l2[id].len() implies e2.contains(l2[id][i]@) && incident(
        l2[id][i]@,
        id,
    ) by {
        let x = l2[id][i];
        if id == gone.to {
            let j = lemma_filter_member(l1[id], gone, i);
            assert(l1[id][j] == x);
            let j0 = choose|j0: int| 0 <= j0 < lists[id].len() && lists[id][j0] == l1[id][j];
            assert(lists[id][j0] == x);
        } else {
            assert(l1[id][i] == x);
            let j0 = choose|j0: int|
                0 <= j0 < lists[id].len() && lists[id][j0] == l1[id][i] && (id == gone.from ==> l1[id][i]@
                    != gone);
            assert(lists[id][j0] == x);
            if x@ == gone {
                assert(incident(lists[id][j0]@, id));
            }
        }
    }
    assert forall|e: EdgeView| #[trigger] e2.contains(e) implies l2.contains_key(e.from) && has_edge(
        l2[e.from],
        e,
    ) && l2.contains_key(e.to) && has_edge(l2[e.to], e) by {
        assert(edges.contains(e));
        lemma_drop_keeps(lists, gone.from, gone, e.from, e);
        lemma_drop_keeps(lists, gone.from, gone, e.to, e);
        lemma_drop_keeps(l1, gone.to, gone, e.from, e);
        lemma_drop_keeps(l1, gone.to, gone, e.to, e);
    }
    assert forall|id: Seq<char>| #[trigger] l2.contains_key(id) implies l2[id].len() > 0 by {
        assert(l1.contains_key(id));
        assert(lists.contains_key(id));
    }
}

proof fn lemma_drop_keeps(
    lists: Map<Seq<char>, Seq<Edge>>,
    at: Seq<char>,
    gone: EdgeView,
    id: Seq<char>,
    e: EdgeView,
)
    requires
        lists.contains_key(id),
        has_edge(lists[id], e),
        e != gone,
    ensures
        lists_drop(lists, at, gone).contains_key(id),
        has_edge(lists_drop(lists, at, gone)[id], e),
{
    if id == at {
        lemma_has_edge_filter(lists[id], gone, e);
        let rest = lists[id].filter(not_edge(gone));
        let j = choose|j: int| 0 <= j < rest.len() && (#[trigger] rest[j])@ == e;
        assert(rest.len() > 0);
    }
}

proof fn lemma_live_edges(edges: Set<EdgeView>, k: AggKeyView)
    requires
        edges.finite(),
    ensures
        live_edges(edges, k).finite(),
        live_edges(edges, k).len() <= edges.len(),
{
    edges.lemma_len_filter(|e: EdgeView| key_of(e) == k);
}

/// Counting an upsert keeps the aggregation index and the raw edges in
/// agreement, whether the raw edge was new or not.
proof fn lemma_aggregation_upsert(
    aggs: Map<AggKeyView, AggEdgeView>,
    edges: Set<EdgeView>,
    e: EdgeView,
    now: u64,
)
    requires
        aggregation_agrees(aggs, edges),
        edges.finite(),
    ensures
        aggregation_agrees(agg_after_upsert(aggs, e, now, !edges.contains(e)), edges.insert(e)),
{
    let a2 = agg_after_upsert(aggs, e, now, !edges.contains(e));
    let e2 = edges.insert(e);
    let k0 = key_of(e);
    assert forall|k: AggKeyView| #[trigger] a2.contains_key(k) implies a2[k].key == k && a2[k].live_count
        > 0 && a2[k].live_count == live_edges(e2, k).len() by {
        lemma_live_edges(edges, k);
        if k == k0 {
            if edges.contains(e) {
                assert(e2 =~= edges);
                assert(aggs.contains_key(k0));
            } else {
                assert(live_edges(e2, k) =~= live_edges(edges, k).insert(e));
                if !aggs.contains_key(k0) {
                    if live_edges(edges, k).len() != 0 {
                        let x = live_edges(edges, k).choose();
                        assert(live_edges(edges, k).contains(x));
                        assert(edges.contains(x));
                        assert(aggs.contains_key(key_of(x)));
                    }
                }
            }
        } else {
            assert(live_edges(e2, k) =~= live_edges(edges, k));
        }
    }
}

/// Removing a raw edge and counting it out keeps the aggregation index and
/// the raw edges in agreement.
proof fn lemma_aggregation_remove(
    aggs: Map<AggKeyView, AggEdgeView>,
    edges: Set<EdgeView>,
    e: EdgeView,
)
    requires
        aggregation_agrees(aggs, edges),
        edges.finite(),
        edges.contains(e),
    ensures
        aggregation_agrees(agg_after_remove(aggs, e), edges.remove(e)),
{
    let a2 = agg_after_remove(aggs, e);
    let e2 = edges.remove(e);
    let k0 = key_of(e);
    assert(aggs.contains_key(k0));
    lemma_live_edges(edges, k0);
    assert(live_edges(e2, k0) =~= live_edges(edges, k0).remove(e));
    assert(live_edges(edges, k0).contains(e));
    assert forall|k: AggKeyView| #[trigger] a2.contains_key(k) implies a2[k].key == k && a2[k].live_count
        > 0 && a2[k].live_count == live_edges(e2, k).len() by {
        if k != k0 {
            assert(live_edges(e2, k) =~= live_edges(edges, k));
        }
    }
    assert forall|x: EdgeView| #[trigger] e2.contains(x) implies a2.contains_key(key_of(x)) by {
        assert(edges.contains(x));
        if key_of(x) == k0 && aggs[k0].live_count <= 1 {
            lemma_live_edges(e2, k0);
            assert(live_edges(e2, k0).contains(x));
            assert(live_edges(e2, k0).len() == 0);
        }
    }
}

/// The adjacency lists that an index holds.
pub open spec fn lists_of(adj: VecMap<NodeId, EdgeList>) -> Map<Seq<char>, Seq<Edge>> {
    Map::new(|id: Seq<char>| adj@.contains_key(id), |id: Seq<char>| edge_list_items(adj@[id]))
}

/// The aggregated edges that an index holds, by value.
pub open spec fn aggs_of(agg: VecMap<AggEdgeKey, AggEdge>) -> Map<AggKeyView, AggEdgeView> {
    Map::new(|k: AggKeyView| agg@.contains_key(k), |k: AggKeyView| agg@[k]@)
}

/// Adds an edge to the adjacency list of a node.
fn adj_add(adj: &mut VecMap<NodeId, EdgeList>, id: &NodeId, edge: &Edge)
    requires
        old(adj).wf(),
    ensures
        final(adj).wf(),
        lists_of(*final(adj)) == lists_add(lists_of(*old(adj)), id@, *edge),
{
    match adj.find(id) {
        Some(i) => {
            let list = adj.val_at_mut(i);
            edge_list_push(list, edge.clone());
            proof {
                VecMap::lemma_changed_at(*old(adj), *adj, i as int);
            }
        },
        None => {
            let mut list = edge_list_new();
            edge_list_push(&mut list, edge.clone());
            assert(edge_list_items(list) =~= seq![*edge]);
            adj.insert(id.clone(), list);
        },
    }
    assert(lists_of(*adj) =~= lists_add(lists_of(*old(adj)), id@, *edge));
}

/// Drops an edge from the adjacency list of a node.
fn adj_drop(adj: &mut VecMap<NodeId, EdgeList>, id: &NodeId, edge: &Edge)
    requires
        old(adj).wf(),
    ensures
        final(adj).wf(),
        lists_of(*final(adj)) == lists_drop(lists_of(*old(adj)), id@, edge@),
{
    match adj.find(id) {
        Some(i) => {
            let list = adj.val_at_mut(i);
            edge_list_drop(list, edge);
            let rest = edge_list_len(list);
            proof {
                VecMap::lemma_changed_at(*old(adj), *adj, i as int);
            }
            if rest == 0 {
                let _ = adj.remove_at(i);
            }
        },
        None => {},
    }
    assert(lists_of(*adj) =~= lists_drop(lists_of(*old(adj)), id@, edge@));
}

/// Every aggregated edge is stored under its own key.
spec fn keyed(agg: VecMap<AggEdgeKey, AggEdge>) -> bool {
    forall|k: AggKeyView| #[trigger] agg@.contains_key(k) ==> agg@[k].key@ == k
}

/// Counts an upsert of `edge` in the aggregation index.
fn agg_upsert(agg: &mut VecMap<AggEdgeKey, AggEdge>, edge: &Edge, now: u64, inserted: bool)
    requires
        old(agg).wf(),
        keyed(*old(agg)),
        inserted && old(agg)@.contains_key(key_of(edge@)) ==> old(agg)@[key_of(edge@)].live_count
            < usize::MAX,
    ensures
        final(agg).wf(),
        keyed(*final(agg)),
        aggs_of(*final(agg)) == agg_after_upsert(aggs_of(*old(agg)), edge@, now, inserted),
{
    let key = AggEdgeKey::new(edge);
    match agg.find(&key) {
        Some(i) => {
            let entry = agg.val_at_mut(i);
            if entry.stats.count < u64::MAX {
                entry.stats.count = entry.stats.count + 1;
            }
            entry.stats.last_ts = now;
            entry.last_kind = edge.kind.clone();
            if inserted {
                entry.live_count = entry.live_count + 1;
            }
            proof {
                VecMap::lemma_changed_at(*old(agg), *agg, i as int);
            }
        },
        None => {
            let entry = AggEdge {
                key: key.clone(),
                stats: EdgeStats { count: 1, first_ts: now, last_ts: now },
                last_kind: edge.kind.clone(),
                live_count: if inserted {
                    1
                } else {
                    0
                },
            };
            agg.insert(key, entry);
        },
    }
    assert(aggs_of(*agg) =~= agg_after_upsert(aggs_of(*old(agg)), edge@, now, inserted));
}

/// Counts the raw edge `edge` out of the aggregation index.
fn agg_remove(agg: &mut VecMap<AggEdgeKey, AggEdge>, edge: &Edge)
    requires
        old(agg).wf(),
        keyed(*old(agg)),
    ensures
        final(agg).wf(),
        keyed(*final(agg)),
        aggs_of(*final(agg)) == agg_after_remove(aggs_of(*old(agg)), edge@),
{
    let key = AggEdgeKey::new(edge);
    match agg.find(&key) {
        Some(i) => {
            let entry = agg.val_at_mut(i);
            if entry.live_count > 0 {
                entry.live_count = entry.live_count - 1;
            }
            let left = entry.live_count;
            proof {
                VecMap::lemma_changed_at(*old(agg), *agg, i as int);
            }
            if left == 0 {
                let _ = agg.remove_at(i);
            }
        },
        None => {},
    }
    assert(aggs_of(*agg) =~= agg_after_remove(aggs_of(*old(agg)), edge@));
}

/// The viewer's graph with its indices.
pub struct GraphModel {
    nodes: VecMap<NodeId, Node>,
    last_seen: VecMap<NodeId, u64>,
    edges: VecSet<Edge>,
    adj: VecMap<NodeId, EdgeList>,
    agg: VecMap<AggEdgeKey, AggEdge>,
}

impl GraphModel {
    /// The nodes, by identifier.
    pub closed spec fn nodes_view(&self) -> Map<Seq<char>, Node> {
        self.nodes@
    }

    /// When each node was last seen, in milliseconds.
    pub closed spec fn last_seen_view(&self) -> Map<Seq<char>, u64> {
        self.last_seen@
    }

    /// The raw edges.
    pub closed spec fn edges_view(&self) -> Set<EdgeView> {
        self.edges@
    }

    /// The adjacency index: for each node that an edge touches, those edges.
    pub closed spec fn adjacency(&self) -> Map<Seq<char>, Seq<Edge>> {
        lists_of(self.adj)
    }

    /// The aggregation index.
    pub closed spec fn agg_view(&self) -> Map<AggKeyView, AggEdgeView> {
        aggs_of(self.agg)
    }

    /// Every node has a time at which it was last seen.
    pub open spec fn last_seen_covers_nodes(&self) -> bool {
        self.nodes_view().dom().subset_of(self.last_seen_view().dom())
    }

    /// Both endpoints of every raw edge are nodes of the graph.
    pub open spec fn endpoints_present(&self) -> bool {
        forall|e: EdgeView| #[trigger]
            self.edges_view().contains(e) ==> self.nodes_view().contains_key(e.from)
                && self.nodes_view().contains_key(e.to)
    }

    /// The invariant of the model: its parts are well formed, every node has
    /// a last-seen time, and both indices agree with the raw edges.
    pub closed spec fn wf(&self) -> bool {
        &&& self.nodes.wf()
        &&& self.last_seen.wf()
        &&& self.edges.wf()
        &&& self.adj.wf()
        &&& self.agg.wf()
        &&& keyed(self.agg)
        &&& self.last_seen_covers_nodes()
        &&& adjacency_agrees(self.adjacency(), self.edges_view())
        &&& aggregation_agrees(self.agg_view(), self.edges_view())
    }

    /// What the invariant says of a well-formed model.
    pub proof fn lemma_invariants(&self)
        requires
            self.wf(),
        ensures
            self.last_seen_covers_nodes(),
            adjacency_agrees(self.adjacency(), self.edges_view()),
            aggregation_agrees(self.agg_view(), self.edges_view()),
            self.edges_view().finite(),
            self.nodes_view().dom().finite(),
            self.agg_view().dom().finite(),
    {
        self.edges.lemma_len();
        self.nodes.lemma_len();
        self.agg.lemma_len();
        assert(self.agg_view().dom() =~= self.agg@.dom());
    }

    /// An empty model.
    pub fn new() -> (m: Self)
        ensures
            m.wf(),
            m.nodes_view() == Map::<Seq<char>, Node>::empty(),
            m.last_seen_view() == Map::<Seq<char>, u64>::empty(),
            m.edges_view() == Set::<EdgeView>::empty(),
            m.agg_view() == Map::<AggKeyView, AggEdgeView>::empty(),
            m.adjacency() == Map::<Seq<char>, Seq<Edge>>::empty(),
    {
        let m = GraphModel {
            nodes: VecMap::new(),
            last_seen: VecMap::new(),
            edges: VecSet::new(),
            adj: VecMap::new(),
            agg: VecMap::new(),
        };
        assert(m.agg_view() =~= Map::<AggKeyView, AggEdgeView>::empty());
        assert(m.adjacency() =~= Map::<Seq<char>, Seq<Edge>>::empty());
        m
    }

    /// Removes every node, edge and index entry.
    pub fn clear(&mut self)
        ensures
            final(self).wf(),
            final(self).nodes_view() == Map::<Seq<char>, Node>::empty(),
            final(self).last_seen_view() == Map::<Seq<char>, u64>::empty(),
            final(self).edges_view() == Set::<EdgeView>::empty(),
            final(self).agg_view() == Map::<AggKeyView, AggEdgeView>::empty(),
            final(self).adjacency() == Map::<Seq<char>, Seq<Edge>>::empty(),
    {
        self.nodes.clear();
        self.edges.clear();
        self.last_seen.clear();
        self.adj.clear();
        self.agg.clear();
        assert(self.agg_view() =~= Map::<AggKeyView, AggEdgeView>::empty());
        assert(self.adjacency() =~= Map::<Seq<char>, Seq<Edge>>::empty());
    }

    /// Inserts a node or overwrites the one with the same identifier, and
    /// records `now` as the time at which it was last seen.
    pub fn upsert_node(&mut self, id: NodeId, node: Node, now: u64)
        requires
            old(self).wf(),
        ensures
            final(self).wf(),
            final(self).nodes_view() == old(self).nodes_view().insert(id@, node),
            final(self).last_seen_view() == old(self).last_seen_view().insert(id@, now),
            final(self).edges_view() == old(self).edges_view(),
            final(self).agg_view() == old(self).agg_view(),
            final(self).adjacency() == old(self).adjacency(),
            old(self).endpoints_present() ==> final(self).endpoints_present(),
    {
        self.nodes.insert(id.clone(), node);
        self.last_seen.insert(id, now);
    }

    /// Records `now` as the time at which the node `id` was last seen,
    /// whether or not the graph holds such a node.
    pub fn touch(&mut self, id: &NodeId, now: u64)
        requires
            old(self).wf(),
        ensures
            final(self).wf(),
            final(self).nodes_view() == old(self).nodes_view(),
            final(self).last_seen_view() == old(self).last_seen_view().insert(id@, now),
            final(self).edges_view() == old(self).edges_view(),
            final(self).agg_view() == old(self).agg_view(),
            final(self).adjacency() == old(self).adjacency(),
    {
        self.last_seen.insert(id.clone(), now);
    }

    /// Removes a node and its last-seen time and leaves the edges as they
    /// are. It is meant for a node that no edge touches.
    pub fn forget_node(&mut self, id: &NodeId)
        requires
            old(self).wf(),
        ensures
            final(self).wf(),
            final(self).nodes_view() == old(self).nodes_view().remove(id@),
            final(self).last_seen_view() == old(self).last_seen_view().remove(id@),
            final(self).edges_view() == old(self).edges_view(),
            final(self).agg_view() == old(self).agg_view(),
            final(self).adjacency() == old(self).adjacency(),
            old(self).endpoints_present() && old(self).incident_list(id@).len() == 0 ==> final(self)
                .endpoints_present(),
    {
        proof {
            let lists = self.adjacency();
            if self.endpoints_present() && self.incident_list(id@).len() == 0 {
                assert forall|e: EdgeView| #[trigger] self.edges_view().contains(e) implies e.from != id@
                    && e.to != id@ by {
                    assert(lists.contains_key(e.from) && has_edge(lists[e.from], e));
                    assert(lists.contains_key(e.to) && has_edge(lists[e.to], e));
                }
            }
        }
        let _ = self.nodes.remove(id);
        let _ = self.last_seen.remove(id);
    }

    /// Adds a raw edge unless it is present, and counts the upsert in the
    /// aggregation index either way: the entry of the edge's key gets one
    /// more upsert, `now` as its last time and the kind of `edge` as its
    /// last kind, and one more live edge if the raw edge was new.
    pub fn upsert_edge(&mut self, edge: Edge, now: u64)
        requires
            old(self).wf(),
        ensures
            final(self).wf(),
            edge_upserted(*old(self), edge, now, *final(self)),
            old(self).endpoints_present() && old(self).nodes_view().contains_key(edge.from@) && old(
                self,
            ).nodes_view().contains_key(edge.to@) ==> final(self).endpoints_present(),
    {
        proof {
            self.edges.lemma_len();
            lemma_aggregation_upsert(self.agg_view(), self.edges_view(), edge@, now);
            lemma_adjacency_add(self.adjacency(), self.edges_view(), edge);
        }
        let inserted = self.edges.insert(edge.clone());
        if inserted {
            adj_add(&mut self.adj, &edge.from, &edge);
            adj_add(&mut self.adj, &edge.to, &edge);
        } else {
            assert(self.edges_view() =~= old(self).edges_view());
        }
        proof {
            self.edges.lemma_len();
            let k = key_of(edge@);
            if inserted && old(self).agg@.contains_key(k) {
                old(self).edges.lemma_len();
                lemma_live_edges(old(self).edges_view(), k);
                assert(old(self).agg_view().contains_key(k));
            }
        }
        agg_upsert(&mut self.agg, &edge, now, inserted);
    }

    /// Removes a raw edge. Returns whether it was present; if it was, it
    /// leaves the adjacency lists of both endpoints and its aggregation
    /// entry counts one live edge less, or is deleted when none is left.
    pub fn remove_edge(&mut self, edge: &Edge) -> (removed: bool)
        requires
            old(self).wf(),
        ensures
            final(self).wf(),
            removed == old(self).edges_view().contains(edge@),
            edge_removed(*old(self), edge@, *final(self)),
            old(self).endpoints_present() ==> final(self).endpoints_present(),
    {
        proof {
            self.edges.lemma_len();
        }
        let removed = self.edges.remove(edge);
        if removed {
            proof {
                lemma_aggregation_remove(old(self).agg_view(), old(self).edges_view(), edge@);
                lemma_adjacency_drop(old(self).adjacency(), old(self).edges_view(), edge@);
            }
            adj_drop(&mut self.adj, &edge.from, edge);
            adj_drop(&mut self.adj, &edge.to, edge);
            agg_remove(&mut self.agg, edge);
        } else {
            assert(self.edges_view() =~= old(self).edges_view());
        }
        removed
    }
}

/// An aggregated edge with another count of live edges.
pub open spec fn with_live_count(a: AggEdgeView, live_count: nat) -> AggEdgeView {
    AggEdgeView { key: a.key, stats: a.stats, last_kind: a.last_kind, live_count }
}

/// Every entry of `post` is the entry of `pre` under the same key, but for
/// its count of live edges.
pub open spec fn agg_shrunk(pre: Map<AggKeyView, AggEdgeView>, post: Map<AggKeyView, AggEdgeView>) -> bool {
    forall|k: AggKeyView| #[trigger]
        post.contains_key(k) ==> pre.contains_key(k) && post[k] == with_live_count(pre[k], post[k].live_count)
}

/// The test that an edge touches the node `id`.
pub open spec fn touches(id: Seq<char>) -> spec_fn(EdgeView) -> bool {
    |e: EdgeView| incident(e, id)
}

/// The test that an edge does not touch the node `id`.
pub open spec fn avoids(id: Seq<char>) -> spec_fn(EdgeView) -> bool {
    |e: EdgeView| !incident(e, id)
}

/// The endpoint of `e` that is not `id`; for an edge from `id` it is the target.
pub open spec fn other_end(e: Edge, id: Seq<char>) -> NodeId {
    if e.from@ == id {
        e.to
    } else {
        e.from
    }
}

/// The node map that a list of nodes gives: a later node replaces an earlier
/// one with the same identifier.
pub open spec fn nodes_of(input: Seq<(NodeId, Node)>) -> Map<Seq<char>, Node>
    decreases input.len(),
{
    if input.len() == 0 {
        Map::empty()
    } else {
        nodes_of(input.drop_last()).insert(input.last().0@, input.last().1)
    }
}

/// The set of edges of a list of edges.
pub open spec fn edge_set_of(input: Seq<Edge>) -> Set<EdgeView>
    decreases input.len(),
{
    if input.len() == 0 {
        Set::empty()
    } else {
        edge_set_of(input.drop_last()).insert(input.last()@)
    }
}

/// The aggregation index that a list of edges gives at time `now`: every
/// edge is counted once, where it first occurs.
pub open spec fn agg_of(input: Seq<Edge>, now: u64) -> Map<AggKeyView, AggEdgeView>
    decreases input.len(),
{
    if input.len() == 0 {
        Map::empty()
    } else if edge_set_of(input.drop_last()).contains(input.last()@) {
        agg_of(input.drop_last(), now)
    } else {
        agg_after_upsert(agg_of(input.drop_last(), now), input.last()@, now, true)
    }
}

/// The last-seen map in which every node of `nodes` was seen at `now`.
pub open spec fn all_seen_at(nodes: Map<Seq<char>, Node>, now: u64) -> Map<Seq<char>, u64> {
    Map::new(|id: Seq<char>| nodes.contains_key(id), |id: Seq<char>| now)
}

/// What `upsert_edge` makes of a model.
pub open spec fn edge_upserted(pre: GraphModel, edge: Edge, now: u64, post: GraphModel) -> bool {
    &&& post.nodes_view() == pre.nodes_view()
    &&& post.last_seen_view() == pre.last_seen_view()
    &&& post.edges_view() == pre.edges_view().insert(edge@)
    &&& post.agg_view() == agg_after_upsert(
        pre.agg_view(),
        edge@,
        now,
        !pre.edges_view().contains(edge@),
    )
    &&& post.adjacency() == if pre.edges_view().contains(edge@) {
        pre.adjacency()
    } else {
        lists_add(lists_add(pre.adjacency(), edge.from@, edge), edge.to@, edge)
    }
}

/// What `remove_edge` makes of a model.
pub open spec fn edge_removed(pre: GraphModel, e: EdgeView, post: GraphModel) -> bool {
    &&& post.nodes_view() == pre.nodes_view()
    &&& post.last_seen_view() == pre.last_seen_view()
    &&& post.edges_view() == pre.edges_view().remove(e)
    &&& post.agg_view() == if pre.edges_view().contains(e) {
        agg_after_remove(pre.agg_view(), e)
    } else {
        pre.agg_view()
    }
    &&& post.adjacency() == if pre.edges_view().contains(e) {
        lists_drop(lists_drop(pre.adjacency(), e.from, e), e.to, e)
    } else {
        pre.adjacency()
    }
}

/// The adjacency lists that a list of edges gives: every edge is listed at
/// both its endpoints, where it first occurs.
pub open spec fn lists_from(input: Seq<Edge>) -> Map<Seq<char>, Seq<Edge>>
    decreases input.len(),
{
    if input.len() == 0 {
        Map::empty()
    } else if edge_set_of(input.drop_last()).contains(input.last()@) {
        lists_from(input.drop_last())
    } else {
        lists_add(
            lists_add(lists_from(input.drop_last()), input.last().from@, input.last()),
            input.last().to@,
            input.last(),
        )
    }
}

/// What `load_snapshot` makes of a model, whatever it held before.
pub open spec fn snapshot_loaded(
    post: GraphModel,
    nodes: Seq<(NodeId, Node)>,
    edges: Seq<Edge>,
    now: u64,
) -> bool {
    &&& post.nodes_view() == nodes_of(nodes)
    &&& post.last_seen_view() == all_seen_at(nodes_of(nodes), now)
    &&& post.edges_view() == edge_set_of(edges)
    &&& post.agg_view() == agg_of(edges, now)
    &&& post.adjacency() == lists_from(edges)
}

/// Two aggregated edges that agree in all but their times.
pub open spec fn same_but_times(a: AggEdgeView, b: AggEdgeView) -> bool {
    &&& a.key == b.key
    &&& a.stats.count == b.stats.count
    &&& a.last_kind == b.last_kind
    &&& a.live_count == b.live_count
}

/// A list of edges holds an edge exactly if its set of edges does.
pub proof fn lemma_edge_set_of(input: Seq<Edge>, e: EdgeView)
    ensures
        edge_set_of(input).contains(e) <==> has_edge(input, e),
        edge_set_of(input).finite(),
    decreases input.len(),
{
    if input.len() > 0 {
        let init = input.drop_last();
        lemma_edge_set_of(init, e);
        if has_edge(init, e) {
            let i = choose|i: int| 0 <= i < init.len() && (#[trigger] init[i])@ == e;
            assert(input[i]@ == e);
        }
        if input.last()@ == e {
            assert(input[input.len() - 1]@ == e);
        }
        if has_edge(input, e) {
            let i = choose|i: int| 0 <= i < input.len() && (#[trigger] input[i])@ == e;
            if i < init.len() {
                assert(init[i]@ == e);
            }
        }
    }
}

/// The aggregation indices that one list of edges gives at two times agree
/// in all but the times.
pub proof fn lemma_agg_of_times(input: Seq<Edge>, now_a: u64, now_b: u64)
    ensures
        agg_of(input, now_a).dom() == agg_of(input, now_b).dom(),
        forall|k: AggKeyView| #[trigger]
            agg_of(input, now_a).contains_key(k) ==> same_but_times(
                agg_of(input, now_a)[k],
                agg_of(input, now_b)[k],
            ),
    decreases input.len(),
{
    if input.len() > 0 {
        lemma_agg_of_times(input.drop_last(), now_a, now_b);
        let a = agg_of(input.drop_last(), now_a);
        let b = agg_of(input.drop_last(), now_b);
        assert(a.dom() == b.dom());
        let k0 = key_of(input.last()@);
        assert(a.contains_key(k0) == b.contains_key(k0));
        assert(agg_of(input, now_a).dom() =~= agg_of(input, now_b).dom());
        assert forall|k: AggKeyView| #[trigger] agg_of(input, now_a).contains_key(k) implies same_but_times(
            agg_of(input, now_a)[k],
            agg_of(input, now_b)[k],
        ) by {
            if k != k0 {
                assert(a.contains_key(k));
            }
        }
    }
}

/// A list that does not hold an edge is left as it is when that edge is dropped.
proof fn lemma_drop_absent(list: Seq<Edge>, gone: EdgeView)
    requires
        !has_edge(list, gone),
    ensures
        list.filter(not_edge(gone)) == list,
    decreases list.len(),
{
    if list.len() == 0 {
        reveal(Seq::filter);
    } else {
        let init = list.drop_last();
        assert(list =~= init.push(list.last()));
        assert(!has_edge(init, gone)) by {
            if has_edge(init, gone) {
                let i = choose|i: int| 0 <= i < init.len() && (#[trigger] init[i])@ == gone;
                assert(list[i]@ == gone);
            }
        }
        lemma_drop_absent(init, gone);
        assert(list[list.len() - 1]@ != gone);
        init.lemma_filter_push(list.last(), not_edge(gone));
    }
}

/// Adding an edge that no list holds to the list of a node and dropping it
/// again gives back the lists.
proof fn lemma_add_then_drop(lists: Map<Seq<char>, Seq<Edge>>, id: Seq<char>, edge: Edge)
    requires
        lists.contains_key(id) ==> !has_edge(lists[id], edge@) && lists[id].len() > 0,
    ensures
        lists_drop(lists_add(lists, id, edge), id, edge@) == lists,
{
    let added = lists_add(lists, id, edge);
    if lists.contains_key(id) {
        lemma_drop_absent(lists[id], edge@);
        lists[id].lemma_filter_push(edge, not_edge(edge@));
    } else {
        Seq::<Edge>::empty().lemma_filter_push(edge, not_edge(edge@));
        assert(seq![edge] =~= Seq::<Edge>::empty().push(edge));
        assert(Seq::<Edge>::empty().filter(not_edge(edge@)).len() == 0) by {
            reveal(Seq::filter);
        }
    }
    assert(lists_drop(added, id, edge@) =~= lists);
}

/// In a well-formed model every aggregated edge is stored under its own
/// key, counts at least one live edge, and counts exactly the raw edges
/// under its key; and every raw edge is counted by the entry of its key.
pub proof fn law_live_counts(m: GraphModel)
    requires
        m.wf(),
    ensures
        forall|k: AggKeyView| #[trigger]
            m.agg_view().contains_key(k) ==> m.agg_view()[k].key == k && m.agg_view()[k].live_count > 0
                && m.agg_view()[k].live_count == live_edges(m.edges_view(), k).len(),
        forall|e: EdgeView| #[trigger]
            m.edges_view().contains(e) ==> m.agg_view().contains_key(key_of(e)),
{
    m.lemma_invariants();
}

/// Upserting an edge that the model does not hold and removing it again
/// restores nodes, last-seen times, raw edges and adjacency lists. The
/// aggregation entry of the edge's key is gone again if there was none;
/// if there was one, it counts the live edges it counted before and has
/// taken note of the upsert.
pub proof fn law_upsert_then_remove_edge(
    m0: GraphModel,
    m1: GraphModel,
    m2: GraphModel,
    edge: Edge,
    now: u64,
)
    requires
        m0.wf(),
        !m0.edges_view().contains(edge@),
        edge_upserted(m0, edge, now, m1),
        edge_removed(m1, edge@, m2),
    ensures
        m2.nodes_view() == m0.nodes_view(),
        m2.last_seen_view() == m0.last_seen_view(),
        m2.edges_view() == m0.edges_view(),
        m2.adjacency() == m0.adjacency(),
        m2.agg_view().dom() == m0.agg_view().dom(),
        m2.agg_view().len() == m0.agg_view().len(),
        forall|k: AggKeyView|
            m2.agg_view().contains_key(k) && k != key_of(edge@) ==> #[trigger] m2.agg_view()[k]
                == m0.agg_view()[k],
        m0.agg_view().contains_key(key_of(edge@)) ==> m2.agg_view()[key_of(edge@)] == (AggEdgeView {
            key: key_of(edge@),
            stats: EdgeStats {
                count: count_up(m0.agg_view()[key_of(edge@)].stats.count),
                first_ts: m0.agg_view()[key_of(edge@)].stats.first_ts,
                last_ts: now,
            },
            last_kind: edge.kind@,
            live_count: m0.agg_view()[key_of(edge@)].live_count,
        }),
{
    m0.lemma_invariants();
    let k0 = key_of(edge@);
    assert(m2.edges_view() =~= m0.edges_view());
    assert(m2.agg_view().dom() =~= m0.agg_view().dom());
    let lists = m0.adjacency();
    let l1 = lists_add(lists, edge.from@, edge);
    let l2 = lists_add(l1, edge.to@, edge);
    assert forall|id: Seq<char>| lists.contains_key(id) implies !has_edge(lists[id], edge@) by {
        if has_edge(lists[id], edge@) {
            let i = choose|i: int| 0 <= i < lists[id].len() && (#[trigger] lists[id][i])@ == edge@;
            assert(m0.edges_view().contains(lists[id][i]@));
        }
    }
    if edge.from@ == edge.to@ {
        let id = edge.from@;
        // both copies sit in one list and leave it together
        let base = if lists.contains_key(id) {
            lists[id]
        } else {
            Seq::<Edge>::empty()
        };
        if lists.contains_key(id) {
            lemma_drop_absent(base, edge@);
        } else {
            assert(base.filter(not_edge(edge@)).len() == 0) by {
                reveal(Seq::filter);
            }
            assert(base.filter(not_edge(edge@)) =~= base);
        }
        assert(l1[id] =~= base.push(edge));
        assert(l2[id] =~= base.push(edge).push(edge));
        base.lemma_filter_push(edge, not_edge(edge@));
        base.push(edge).lemma_filter_push(edge, not_edge(edge@));
        let d1 = lists_drop(l2, id, edge@);
        assert(d1 =~= lists);
        assert(lists_drop(d1, id, edge@) =~= lists) by {
            if lists.contains_key(id) {
                lemma_drop_absent(lists[id], edge@);
            }
        }
    } else {
        lemma_add_then_drop(l1, edge.to@, edge);
        assert(lists_drop(l2, edge.to@, edge@) == l1);
        lemma_add_then_drop(lists, edge.from@, edge);
        // the two lists are apart, so the drops may change places
        let d_from = lists_drop(l2, edge.from@, edge@);
        assert(l2[edge.from@] == l1[edge.from@]);
        if lists.contains_key(edge.from@) {
            lemma_drop_absent(lists[edge.from@], edge@);
            lists[edge.from@].lemma_filter_push(edge, not_edge(edge@));
        } else {
            Seq::<Edge>::empty().lemma_filter_push(edge, not_edge(edge@));
            assert(seq![edge] =~= Seq::<Edge>::empty().push(edge));
            assert(Seq::<Edge>::empty().filter(not_edge(edge@)).len() == 0) by {
                reveal(Seq::filter);
            }
        }
        assert(d_from =~= lists_add(lists, edge.to@, edge));
        lemma_add_then_drop(lists, edge.to@, edge);
    }
}

/// Removing a node a second time changes nothing and returns no edge.
pub proof fn law_remove_node_idempotent(
    m0: GraphModel,
    m1: GraphModel,
    m2: GraphModel,
    id: Seq<char>,
    removed1: Seq<Edge>,
    removed2: Seq<Edge>,
)
    requires
        m0.wf(),
        m1.wf(),
        m2.wf(),
        node_removed(m0, id, m1, removed1),
        node_removed(m1, id, m2, removed2),
    ensures
        removed2.len() == 0,
        m2.nodes_view() == m1.nodes_view(),
        m2.last_seen_view() == m1.last_seen_view(),
        m2.edges_view() == m1.edges_view(),
        m2.agg_view() == m1.agg_view(),
{
    m1.lemma_invariants();
    m2.lemma_invariants();
    assert(m2.nodes_view() =~= m1.nodes_view());
    assert(m2.last_seen_view() =~= m1.last_seen_view());
    assert(m2.edges_view() =~= m1.edges_view());
    assert(key_set(removed2) =~= Set::<EdgeView>::empty());
    if removed2.len() > 0 {
        assert(has_key(removed2, removed2[0]@));
        assert(key_set(removed2).contains(removed2[0]@));
    }
    let a1 = m1.agg_view();
    let a2 = m2.agg_view();
    assert forall|k: AggKeyView| a1.contains_key(k) implies a2.contains_key(k) by {
        lemma_live_edges(m1.edges_view(), k);
        let x = live_edges(m1.edges_view(), k).choose();
        assert(live_edges(m1.edges_view(), k).contains(x));
        assert(m2.edges_view().contains(x));
        assert(a2.contains_key(key_of(x)));
    }
    assert(a2 =~= a1);
}

/// Loading one snapshot into two models, whatever they held and at whatever
/// times, gives the same nodes, raw edges and adjacency lists, and
/// aggregated edges that agree in all but their times. Loaded at the same
/// time the models agree in everything.
pub proof fn law_snapshot_determines_state(
    a: GraphModel,
    b: GraphModel,
    nodes: Seq<(NodeId, Node)>,
    edges: Seq<Edge>,
    now_a: u64,
    now_b: u64,
)
    requires
        snapshot_loaded(a, nodes, edges, now_a),
        snapshot_loaded(b, nodes, edges, now_b),
    ensures
        a.nodes_view() == b.nodes_view(),
        a.edges_view() == b.edges_view(),
        a.adjacency() == b.adjacency(),
        a.last_seen_view().dom() == b.last_seen_view().dom(),
        a.agg_view().dom() == b.agg_view().dom(),
        forall|k: AggKeyView| #[trigger]
            a.agg_view().contains_key(k) ==> same_but_times(a.agg_view()[k], b.agg_view()[k]),
        now_a == now_b ==> a.agg_view() == b.agg_view() && a.last_seen_view() == b.last_seen_view(),
{
    lemma_agg_of_times(edges, now_a, now_b);
    assert(a.last_seen_view().dom() =~= b.last_seen_view().dom());
}

/// What `remove_node` leaves of a model and what it returns.
pub open spec fn node_removed(pre: GraphModel, id: Seq<char>, post: GraphModel, removed: Seq<Edge>) -> bool {
    &&& node_dropped(pre, id, post)
    &&& distinct_keys(removed)
    &&& key_set(removed) == pre.edges_view().filter(touches(id))
    &&& post.adjacency() == lists_drop_all(pre.adjacency(), removed)
}

/// The adjacency lists after each of the given edges left the lists of
/// both its endpoints, in the order given.
pub open spec fn lists_drop_all(lists: Map<Seq<char>, Seq<Edge>>, gone: Seq<Edge>) -> Map<
    Seq<char>,
    Seq<Edge>,
>
    decreases gone.len(),
{
    if gone.len() == 0 {
        lists
    } else {
        let e = gone.last()@;
        lists_drop(lists_drop(lists_drop_all(lists, gone.drop_last()), e.from, e), e.to, e)
    }
}

/// What the removal of the node `id` leaves of a model: the node, its
/// last-seen time and the raw edges that touch it are gone, and the
/// aggregated edges are those of before with fewer live edges. How many
/// they count, and which are left, follows from the invariant.
pub open spec fn node_dropped(pre: GraphModel, id: Seq<char>, post: GraphModel) -> bool {
    &&& post.nodes_view() == pre.nodes_view().remove(id)
    &&& post.last_seen_view() == pre.last_seen_view().remove(id)
    &&& post.edges_view() == pre.edges_view().filter(avoids(id))
    &&& agg_shrunk(pre.agg_view(), post.agg_view())
}

impl GraphModel {
    /// The edges that touch a node, as the adjacency index lists them.
    pub open spec fn incident_list(&self, id: Seq<char>) -> Seq<Edge> {
        if self.adjacency().contains_key(id) {
            self.adjacency()[id]
        } else {
            Seq::empty()
        }
    }

    /// The edges that touch the node `id`: each is a raw edge that starts or
    /// ends there, and every such raw edge is among them.
    pub fn edges_for_node(&self, id: &NodeId) -> (out: Vec<Edge>)
        requires
            self.wf(),
        ensures
            out@ == self.incident_list(id@),
            forall|i: int|
                0 <= i < out.len() ==> self.edges_view().contains((#[trigger] out[i])@) && incident(
                    out[i]@,
                    id@,
                ),
            forall|e: EdgeView| #[trigger]
                self.edges_view().contains(e) && incident(e, id@) ==> has_edge(out@, e),
    {
        let mut out: Vec<Edge> = Vec::new();
        match self.adj.get(id) {
            Some(list) => {
                let n = edge_list_len(list);
                let mut i: usize = 0;
                while i < n
                    invariant
                        i <= n,
                        n == edge_list_items(*list).len(),
                        out@ == edge_list_items(*list).take(i as int),
                    decreases n - i,
                {
                    out.push(edge_list_get(list, i).clone());
                    i += 1;
                    assert(edge_list_items(*list).take(i as int) =~= edge_list_items(*list).take(
                        i - 1,
                    ).push(edge_list_items(*list)[i - 1]));
                }
                assert(edge_list_items(*list).take(n as int) =~= edge_list_items(*list));
            },
            None => {},
        }
        proof {
            let lists = self.adjacency();
            assert(out@ =~= self.incident_list(id@));
            assert forall|i: int| 0 <= i < out.len() implies self.edges_view().contains(
                (#[trigger] out[i])@,
            ) && incident(out[i]@, id@) by {
                assert(lists[id@][i] == out[i]);
            }
            assert forall|e: EdgeView| #[trigger]
                self.edges_view().contains(e) && incident(e, id@) implies has_edge(out@, e) by {
                assert(lists.contains_key(e.from) && has_edge(lists[e.from], e));
                assert(lists.contains_key(e.to) && has_edge(lists[e.to], e));
            }
        }
        out
    }

    /// For each edge that touches the node `id`, in the order of
    /// `edges_for_node`, the node at its other end.
    pub fn neighbors(&self, id: &NodeId) -> (out: Vec<NodeId>)
        requires
            self.wf(),
        ensures
            out.len() == self.incident_list(id@).len(),
            forall|i: int|
                0 <= i < out.len() ==> (#[trigger] out[i]) == other_end(self.incident_list(id@)[i], id@),
    {
        let list = self.edges_for_node(id);
        let mut out: Vec<NodeId> = Vec::new();
        let mut i: usize = 0;
        while i < list.len()
            invariant
                i <= list.len(),
                out.len() == i,
                forall|j: int| 0 <= j < i ==> (#[trigger] out[j]) == other_end(list[j], id@),
            decreases list.len() - i,
        {
            let edge = &list[i];
            if edge.from.same(id) {
                out.push(edge.to.clone());
            } else {
                out.push(edge.from.clone());
            }
            i += 1;
        }
        out
    }

    /// Removes a node with its last-seen time and every raw edge that
    /// touches it, and returns those edges, each once. The aggregation
    /// entries of the removed edges count them out.
    pub fn remove_node(&mut self, id: &NodeId) -> (removed: Vec<Edge>)
        requires
            old(self).wf(),
        ensures
            final(self).wf(),
            node_removed(*old(self), id@, *final(self), removed@),
            old(self).endpoints_present() ==> final(self).endpoints_present(),
    {
        let list = self.edges_for_node(id);
        let _ = self.nodes.remove(id);
        let _ = self.last_seen.remove(id);
        let mut removed: Vec<Edge> = Vec::new();
        let mut i: usize = 0;
        while i < list.len()
            invariant
                i <= list.len(),
                self.wf(),
                old(self).wf(),
                self.nodes_view() == old(self).nodes_view().remove(id@),
                self.last_seen_view() == old(self).last_seen_view().remove(id@),
                forall|j: int|
                    0 <= j < list.len() ==> old(self).edges_view().contains((#[trigger] list[j])@)
                        && incident(list[j]@, id@),
                forall|e: EdgeView| #[trigger]
                    self.edges_view().contains(e) <==> old(self).edges_view().contains(e) && !has_edge(
                        list@.take(i as int),
                        e,
                    ),
                distinct_keys(removed@),
                forall|e: EdgeView| has_key(removed@, e) <==> has_edge(list@.take(i as int), e),
                agg_shrunk(old(self).agg_view(), self.agg_view()),
                self.adjacency() == lists_drop_all(old(self).adjacency(), removed@),
            decreases list.len() - i,
        {
            let edge = &list[i];
            let ghost before = *self;
            let ghost taken = list@.take(i as int);
            let ghost taken2 = list@.take(i + 1);
            proof {
                assert(taken2 =~= taken.push(*edge));
                assert forall|e: EdgeView| has_edge(taken2, e) <==> has_edge(taken, e) || e == edge@ by {
                    lemma_has_edge_push(taken, *edge, e);
                    if has_edge(taken2, e) {
                        let p = choose|p: int| 0 <= p < taken2.len() && (#[trigger] taken2[p])@ == e;
                        if p < taken.len() {
                            assert(taken[p]@ == e);
                        }
                    }
                }
            }
            let was_present = self.remove_edge(edge);
            if was_present {
                let ghost r0 = removed@;
                proof {
                    assert(!has_key(r0, edge@));
                }
                removed.push(edge.clone());
                proof {
                    assert(removed@ =~= r0.push(*edge));
                    assert(removed@.drop_last() =~= r0);
                    assert forall|a: int, b: int| 0 <= a < b < removed@.len() implies (
                    #[trigger] removed@[a])@ != (#[trigger] removed@[b])@ by {
                        if b < r0.len() {
                            assert(r0[a]@ != r0[b]@);
                        } else {
                            assert(r0[a]@ == removed@[a]@);
                            if r0[a]@ == edge@ {
                                assert(has_key(r0, edge@));
                            }
                        }
                    }
                    assert forall|e: EdgeView| has_key(removed@, e) <==> has_edge(taken2, e) by {
                        if has_key(removed@, e) {
                            let p = position_of(removed@, e);
                            if p < r0.len() {
                                assert(r0[p]@ == e);
                                assert(has_key(r0, e));
                            }
                        }
                        if has_key(r0, e) {
                            let p = position_of(r0, e);
                            assert(removed@[p]@ == e);
                        }
                        if e == edge@ {
                            assert(removed@[removed@.len() - 1]@ == e);
                        }
                    }
                }
            } else {
                proof {
                    // the edge was taken out at an earlier position of the list
                    assert(old(self).edges_view().contains(edge@));
                    assert(has_edge(taken, edge@));
                }
            }
            i += 1;
        }
        proof {
            assert(list@.take(list.len() as int) =~= list@);
            let pre = old(self).edges_view();
            assert(self.edges_view() =~= pre.filter(avoids(id@)));
            assert(key_set(removed@) =~= pre.filter(touches(id@)));
            if old(self).endpoints_present() {
                assert forall|e: EdgeView| #[trigger] self.edges_view().contains(e) implies self.nodes_view().contains_key(
                    e.from,
                ) && self.nodes_view().contains_key(e.to) by {
                    assert(pre.contains(e));
                }
            }
        }
        removed
    }

    /// Replaces the content of the model by a snapshot taken at `now`.
    /// Where an identifier occurs twice the later node stays; an edge that
    /// occurs twice counts once. Both indices are built anew, every
    /// aggregated edge with `now` as its first and last time.
    pub fn load_snapshot(&mut self, nodes: Vec<(NodeId, Node)>, edges: Vec<Edge>, now: u64)
        ensures
            final(self).wf(),
            snapshot_loaded(*final(self), nodes@, edges@, now),
            (forall|j: int|
                0 <= j < edges.len() ==> nodes_of(nodes@).contains_key((#[trigger] edges[j]).from@)
                    && nodes_of(nodes@).contains_key(edges[j].to@)) ==> final(self).endpoints_present(),
    {
        self.clear();
        let mut i: usize = 0;
        while i < nodes.len()
            invariant
                i <= nodes.len(),
                self.wf(),
                self.nodes_view() == nodes_of(nodes@.take(i as int)),
                self.last_seen_view() == all_seen_at(nodes_of(nodes@.take(i as int)), now),
                self.edges_view() == Set::<EdgeView>::empty(),
                self.agg_view() == Map::<AggKeyView, AggEdgeView>::empty(),
                self.adjacency() == Map::<Seq<char>, Seq<Edge>>::empty(),
            decreases nodes.len() - i,
        {
            let entry = &nodes[i];
            self.upsert_node(entry.0.clone(), entry.1.clone(), now);
            i += 1;
            proof {
                assert(nodes@.take(i as int).drop_last() =~= nodes@.take(i - 1));
                assert(self.last_seen_view() =~= all_seen_at(nodes_of(nodes@.take(i as int)), now));
            }
        }
        assert(nodes@.take(nodes.len() as int) =~= nodes@);
        let mut j: usize = 0;
        while j < edges.len()
            invariant
                j <= edges.len(),
                self.wf(),
                self.nodes_view() == nodes_of(nodes@),
                self.last_seen_view() == all_seen_at(nodes_of(nodes@), now),
                self.edges_view() == edge_set_of(edges@.take(j as int)),
                self.agg_view() == agg_of(edges@.take(j as int), now),
                self.adjacency() == lists_from(edges@.take(j as int)),
            decreases edges.len() - j,
        {
            let edge = &edges[j];
            proof {
                assert(edges@.take(j + 1).drop_last() =~= edges@.take(j as int));
            }
            if !self.edges.contains(edge) {
                self.upsert_edge(edge.clone(), now);
            } else {
                assert(self.edges_view().insert(edge@) =~= self.edges_view());
            }
            j += 1;
        }
        assert(edges@.take(edges.len() as int) =~= edges@);
        proof {
            if forall|j: int|
                0 <= j < edges.len() ==> nodes_of(nodes@).contains_key((#[trigger] edges[j]).from@)
                    && nodes_of(nodes@).contains_key(edges[j].to@) {
                assert forall|e: EdgeView| #[trigger] self.edges_view().contains(e) implies self.nodes_view().contains_key(
                    e.from,
                ) && self.nodes_view().contains_key(e.to) by {
                    lemma_edge_set_of(edges@, e);
                    let j = choose|j: int| 0 <= j < edges@.len() && (#[trigger] edges@[j])@ == e;
                    assert(nodes_of(nodes@).contains_key(edges[j].from@));
                }
            }
        }
    }

    /// The identifiers of the nodes, in the order in which the model keeps them.
    pub closed spec fn node_order(&self) -> Seq<NodeId> {
        self.nodes.keys()
    }

    /// The raw edges, in the order in which the model keeps them.
    pub closed spec fn edge_order(&self) -> Seq<Edge> {
        self.edges.items()
    }

    /// The keys of the aggregated edges, in the order in which the model keeps them.
    pub closed spec fn agg_order(&self) -> Seq<AggEdgeKey> {
        self.agg.keys()
    }

    /// The orders list every node, every raw edge and every aggregated
    /// edge once.
    pub proof fn lemma_orders(&self)
        requires
            self.wf(),
        ensures
            distinct_keys(self.node_order()),
            key_set(self.node_order()) == self.nodes_view().dom(),
            distinct_keys(self.edge_order()),
            key_set(self.edge_order()) == self.edges_view(),
            distinct_keys(self.agg_order()),
            key_set(self.agg_order()) == self.agg_view().dom(),
            self.agg_order().len() == self.agg_view().len(),
    {
        self.nodes.lemma_keys();
        self.agg.lemma_keys();
        self.agg.lemma_len();
        assert(self.agg_view().dom() =~= self.agg@.dom());
    }

    /// The aggregated edge at a position of the order.
    pub fn agg_at(&self, i: usize) -> (a: &AggEdge)
        requires
            self.wf(),
            i < self.agg_order().len(),
        ensures
            a.key@ == self.agg_order()[i as int]@,
            self.agg_view().contains_key(a.key@),
            self.agg_view()[a.key@] == a@,
    {
        let k = self.agg.key_at(i);
        self.agg.val_at(i)
    }

    /// The number of nodes.
    pub fn node_count(&self) -> (n: usize)
        requires
            self.wf(),
        ensures
            n == self.nodes_view().len(),
            n == self.node_order().len(),
    {
        self.nodes.len()
    }

    /// The node at a position of the order, with its identifier.
    pub fn node_at(&self, i: usize) -> (entry: (&NodeId, &Node))
        requires
            self.wf(),
            i < self.node_order().len(),
        ensures
            *entry.0 == self.node_order()[i as int],
            self.nodes_view().contains_key(entry.0@),
            self.nodes_view()[entry.0@] == *entry.1,
    {
        (self.nodes.key_at(i), self.nodes.val_at(i))
    }

    /// The node with an identifier.
    pub fn node(&self, id: &NodeId) -> (r: Option<&Node>)
        requires
            self.wf(),
        ensures
            match r {
                Some(n) => self.nodes_view().contains_key(id@) && *n == self.nodes_view()[id@],
                None => !self.nodes_view().contains_key(id@),
            },
    {
        self.nodes.get(id)
    }

    /// Whether the model holds a node with an identifier.
    pub fn contains_node(&self, id: &NodeId) -> (r: bool)
        requires
            self.wf(),
        ensures
            r == self.nodes_view().contains_key(id@),
    {
        self.nodes.contains_key(id)
    }

    /// When a node was last seen.
    pub fn last_seen(&self, id: &NodeId) -> (r: Option<u64>)
        requires
            self.wf(),
        ensures
            match r {
                Some(t) => self.last_seen_view().contains_key(id@) && t == self.last_seen_view()[id@],
                None => !self.last_seen_view().contains_key(id@),
            },
    {
        match self.last_seen.get(id) {
            Some(t) => Some(*t),
            None => None,
        }
    }

    /// The number of raw edges.
    pub fn edge_count(&self) -> (n: usize)
        requires
            self.wf(),
        ensures
            n == self.edges_view().len(),
            n == self.edge_order().len(),
    {
        self.edges.len()
    }

    /// The raw edge at a position of the order.
    pub fn edge_at(&self, i: usize) -> (edge: &Edge)
        requires
            self.wf(),
            i < self.edge_order().len(),
        ensures
            *edge == self.edge_order()[i as int],
            self.edges_view().contains(edge@),
    {
        self.edges.item_at(i)
    }

    /// Whether the model holds a raw edge.
    pub fn contains_edge(&self, edge: &Edge) -> (r: bool)
        requires
            self.wf(),
        ensures
            r == self.edges_view().contains(edge@),
    {
        self.edges.contains(edge)
    }

    /// The number of aggregated edges.
    pub fn agg_edge_count(&self) -> (n: usize)
        requires
            self.wf(),
        ensures
            n == self.agg_view().len(),
    {
        proof {
            assert(self.agg_view().dom() =~= self.agg@.dom());
        }
        self.agg.len()
    }

    /// The aggregated edge under a key.
    pub fn agg_edge(&self, key: &AggEdgeKey) -> (r: Option<&AggEdge>)
        requires
            self.wf(),
        ensures
            match r {
                Some(a) => self.agg_view().contains_key(key@) && a@ == self.agg_view()[key@],
                None => !self.agg_view().contains_key(key@),
            },
    {
        self.agg.get(key)
    }

    /// The aggregated edges: every entry of the index once.
    pub fn agg_edges(&self) -> (out: Vec<AggEdge>)
        requires
            self.wf(),
        ensures
            out.len() == self.agg_view().len(),
            forall|i: int|
                0 <= i < out.len() ==> self.agg_view().contains_key((#[trigger] out[i]).key@)
                    && self.agg_view()[out[i].key@] == out[i]@,
            forall|i: int, j: int|
                0 <= i < j < out.len() ==> (#[trigger] out[i]).key@ != (#[trigger] out[j]).key@,
    {
        proof {
            assert(self.agg_view().dom() =~= self.agg@.dom());
        }
        let n = self.agg.len();
        let mut out: Vec<AggEdge> = Vec::new();
        let mut i: usize = 0;
        while i < n
            invariant
                i <= n,
                self.wf(),
                n == self.agg.keys().len(),
                out.len() == i,
                forall|j: int|
                    0 <= j < i ==> (#[trigger] out[j]).key@ == self.agg.keys()[j]@
                        && self.agg_view().contains_key(out[j].key@) && self.agg_view()[out[j].key@]
                        == out[j]@,
            decreases n - i,
        {
            let entry = self.agg.val_at(i);
            out.push(entry.clone());
            i += 1;
        }
        out
    }
}

impl Default for GraphModel {
    /// An empty model.
    fn default() -> (m: Self)
        ensures
            m.wf(),
            m.nodes_view() == Map::<Seq<char>, Node>::empty(),
            m.last_seen_view() == Map::<Seq<char>, u64>::empty(),
            m.edges_view() == Set::<EdgeView>::empty(),
            m.agg_view() == Map::<AggKeyView, AggEdgeView>::empty(),
            m.adjacency() == Map::<Seq<char>, Seq<Edge>>::empty(),
    {
        GraphModel::new()
    }
}

} // verus!
