//! The rules of the file system watcher: which events count and as what,
//! which failures are passed over, how events of one window are taken
//! together, and what a batch of them says.

use vstd::prelude::*;
use crate::collections::{position_of, VecMap};
use crate::path_policy::PathPolicy;
use crate::text::{contains_text, has_part, lowercase, lowercase_of};
use crate::wire::{
    delta_of, file_id_text, id_file, Delta, DeltaView, FileKind, Msg, Node, NodeView,
};

verus! {

/// `notify::EventKind`, the kind of an event of the watcher, carried as it is.
#[verifier::external_type_specification]
#[verifier::external_body]
pub struct ExEventKind(notify::EventKind);

/// `notify::Error`, an error of the watcher, carried as it is.
#[verifier::external_type_specification]
#[verifier::external_body]
pub struct ExNotifyError(notify::Error);

/// `std::io::Error`, an error of the operating system, carried as it is.
#[verifier::external_type_specification]
#[verifier::external_body]
pub struct ExIoError(std::io::Error);

/// How long events are taken together before a batch is sent, in milliseconds.
pub const COALESCE_WINDOW_MS: u64 = 250;

/// The number of the first batch of the file system watcher.
pub const FIRST_BATCH_ID: u64 = 50_000;

/// What an event means for a path.
#[derive(Debug, Clone, Copy, PartialEq, Eq, Structural)]
pub enum Action {
    Upsert,
    Remove,
}

/// The kinds of event that the watcher tells apart.
#[derive(Debug, Clone, Copy, PartialEq, Eq, Structural)]
pub enum EventTag {
    Any,
    Access,
    Create,
    Modify,
    Remove,
    Other,
}

/// The kind of an event of the watcher, without what it holds.
pub uninterp spec fn event_tag_of(kind: notify::EventKind) -> EventTag;

/// The kind of an event, without what it holds.
///
/// Tells the variants of `notify::EventKind` apart, one arm for each; the
/// result depends on the variant alone.
#[verifier::external_body]
fn event_tag(kind: &notify::EventKind) -> (tag: EventTag)
    ensures
        tag == event_tag_of(*kind),
{
    match kind {
        notify::EventKind::Any => EventTag::Any,
        notify::EventKind::Access(_) => EventTag::Access,
        notify::EventKind::Create(_) => EventTag::Create,
        notify::EventKind::Modify(_) => EventTag::Modify,
        notify::EventKind::Remove(_) => EventTag::Remove,
        notify::EventKind::Other => EventTag::Other,
    }
}

/// What an event of a kind means: creation, change and the catch-all
/// kind are upserts, removal is a removal, and any other kind means
/// nothing.
pub open spec fn action_of(tag: EventTag) -> Option<Action> {
    match tag {
        EventTag::Create => Some(Action::Upsert),
        EventTag::Modify => Some(Action::Upsert),
        EventTag::Remove => Some(Action::Remove),
        EventTag::Any => Some(Action::Upsert),
        EventTag::Access => None,
        EventTag::Other => None,
    }
}

/// What an event of a kind means.
pub fn classify_tag(tag: EventTag) -> (r: Option<Action>)
    ensures
        r == action_of(tag),
{
    match tag {
        EventTag::Create => Some(Action::Upsert),
        EventTag::Modify => Some(Action::Upsert),
        EventTag::Remove => Some(Action::Remove),
        EventTag::Any => Some(Action::Upsert),
        _ => None,
    }
}

/// What an event of the watcher means: the action of its kind.
pub fn classify(kind: &notify::EventKind) -> (r: Option<Action>)
    ensures
        r == action_of(event_tag_of(*kind)),
{
    classify_tag(event_tag(kind))
}

/// What the watcher reads of a failure of the operating system.
#[derive(Debug, Clone, Copy, PartialEq, Eq, Structural)]
pub struct IoFailure {
    pub permission_denied: bool,
    pub os_code: Option<i32>,
}

/// What the watcher reads of a failure to watch.
#[derive(Debug, PartialEq, Eq)]
pub enum WatchFailure {
    Io(IoFailure),
    Other { message: String },
}

/// What the watcher reads of an error of the operating system: whether
/// its kind is a denial of permission, and its code if it has one.
pub uninterp spec fn io_failure_of(error: std::io::Error) -> IoFailure;

/// What the watcher reads of an error of `notify`: of an I/O error what
/// `io_failure_of` reads of it, of any other its text.
pub uninterp spec fn watch_failure_of(error: notify::Error) -> WatchFailure;

/// What the watcher reads of an I/O error.
///
/// Reads `io::Error::kind`, compared with `ErrorKind::PermissionDenied`,
/// and `io::Error::raw_os_error`; both depend on the error alone.
#[verifier::external_body]
fn io_failure(error: &std::io::Error) -> (f: IoFailure)
    ensures
        f == io_failure_of(*error),
{
    IoFailure {
        permission_denied: error.kind() == std::io::ErrorKind::PermissionDenied,
        os_code: error.raw_os_error(),
    }
}

/// What the watcher reads of an error of `notify`.
///
/// Tells `notify::ErrorKind::Io` from the other kinds; of an I/O error it
/// reads what `io_failure` reads, of any other the text that `Display`
/// gives. Both depend on the error alone.
#[verifier::external_body]
fn watch_failure(error: &notify::Error) -> (w: WatchFailure)
    ensures
        w == watch_failure_of(*error),
{
    match &error.kind {
        notify::ErrorKind::Io(io) => WatchFailure::Io(
            IoFailure {
                permission_denied: io.kind() == std::io::ErrorKind::PermissionDenied,
                os_code: io.raw_os_error(),
            },
        ),
        _ => WatchFailure::Other { message: error.to_string() },
    }
}

/// Whether an error code of the operating system says that no space is
/// left, which is what it says when no watch is left.
pub uninterp spec fn is_no_space_code(code: int) -> bool;

/// Whether an error code says that no space is left.
///
/// Compares with `libc::ENOSPC`, a constant of the platform.
#[verifier::external_body]
fn no_space_code(code: i32) -> (r: bool)
    ensures
        r == is_no_space_code(code as int),
{
    code == libc::ENOSPC
}

/// Whether a failure says that the limit of watches is reached.
pub open spec fn at_watch_limit(f: IoFailure) -> bool {
    f.os_code is Some && is_no_space_code(f.os_code->0 as int)
}

/// Whether a failure to watch is a denial of permission.
pub open spec fn watch_denied(w: WatchFailure) -> bool {
    match w {
        WatchFailure::Io(f) => f.permission_denied,
        WatchFailure::Other { .. } => false,
    }
}

/// Whether a failure to watch says that the limit of watches is
/// reached: by its code if it comes from the operating system, and else
/// by the words `watch limit` in its text, in whatever case.
pub open spec fn watch_limited(w: WatchFailure) -> bool {
    match w {
        WatchFailure::Io(f) => at_watch_limit(f),
        WatchFailure::Other { message } => has_part(lowercase_of(message@), "watch limit"@),
    }
}

/// Whether a failure is a denial of permission.
pub fn failure_denied(f: &IoFailure) -> (r: bool)
    ensures
        r == f.permission_denied,
{
    f.permission_denied
}

/// Whether a failure says that the limit of watches is reached.
pub fn failure_at_watch_limit(f: &IoFailure) -> (r: bool)
    ensures
        r == at_watch_limit(*f),
{
    match f.os_code {
        Some(code) => no_space_code(code),
        None => false,
    }
}

/// Whether a failure to watch is a denial of permission.
pub fn watch_failure_denied(w: &WatchFailure) -> (r: bool)
    ensures
        r == watch_denied(*w),
{
    match w {
        WatchFailure::Io(f) => failure_denied(f),
        WatchFailure::Other { .. } => false,
    }
}

/// Whether a failure to watch says that the limit of watches is reached.
pub fn watch_failure_limited(w: &WatchFailure) -> (r: bool)
    ensures
        r == watch_limited(*w),
{
    match w {
        WatchFailure::Io(f) => failure_at_watch_limit(f),
        WatchFailure::Other { message } => {
            let low = lowercase(message.as_str());
            contains_text(low.as_str(), "watch limit")
        },
    }
}

/// Whether an I/O error is a denial of permission.
pub fn is_permission_denied(error: &std::io::Error) -> (r: bool)
    ensures
        r == io_failure_of(*error).permission_denied,
{
    let f = io_failure(error);
    failure_denied(&f)
}

/// Whether an I/O error says that the limit of watches is reached.
pub fn is_watch_limit_error(error: &std::io::Error) -> (r: bool)
    ensures
        r == at_watch_limit(io_failure_of(*error)),
{
    let f = io_failure(error);
    failure_at_watch_limit(&f)
}

/// Whether an error of the watcher is a denial of permission.
pub fn is_notify_permission_denied(error: &notify::Error) -> (r: bool)
    ensures
        r == watch_denied(watch_failure_of(*error)),
{
    let w = watch_failure(error);
    watch_failure_denied(&w)
}

/// Whether an error of the watcher says that the limit of watches is reached.
pub fn is_notify_watch_limit(error: &notify::Error) -> (r: bool)
    ensures
        r == watch_limited(watch_failure_of(*error)),
{
    let w = watch_failure(error);
    watch_failure_limited(&w)
}

/// How many directories are watched and how many were passed over.
#[derive(Debug, Clone, Copy, PartialEq, Eq, Structural)]
pub struct WatchStats {
    pub watched: usize,
    pub skipped_permission: usize,
    pub skipped_watch_limit: usize,
}

/// What the walk does after a directory was tried.
#[derive(Debug, Clone, Copy, PartialEq, Eq, Structural)]
pub enum WalkStep {
    /// The directory is watched: its entries are listed next.
    List,
    /// The directory is passed over.
    Skip,
    /// The walk ends with the failure.
    Fail,
}

/// One more, stopping at the largest number.
pub open spec fn one_more(n: usize) -> usize {
    if n < usize::MAX {
        (n + 1) as usize
    } else {
        n
    }
}

fn bump(n: usize) -> (r: usize)
    ensures
        r == one_more(n),
{
    if n < usize::MAX {
        n + 1
    } else {
        n
    }
}

/// The walk over the directories under a root: the directories that are
/// still to be tried, the last found first, and the counts so far.
pub struct WatchWalk {
    pub stack: Vec<String>,
    pub stats: WatchStats,
}

/// The step and the counts after a watch on a directory was asked for:
/// a watch that was set counts as watched and its directory is listed; a
/// denial of permission and a reached limit of watches each count as
/// passed over; any other failure ends the walk.
pub open spec fn after_watch(stats: WatchStats, outcome: Option<WatchFailure>) -> (WalkStep, WatchStats) {
    match outcome {
        None => (
            WalkStep::List,
            WatchStats {
                watched: one_more(stats.watched),
                skipped_permission: stats.skipped_permission,
                skipped_watch_limit: stats.skipped_watch_limit,
            },
        ),
        Some(w) => if watch_denied(w) {
            (
                WalkStep::Skip,
                WatchStats {
                    watched: stats.watched,
                    skipped_permission: one_more(stats.skipped_permission),
                    skipped_watch_limit: stats.skipped_watch_limit,
                },
            )
        } else if watch_limited(w) {
            (
                WalkStep::Skip,
                WatchStats {
                    watched: stats.watched,
                    skipped_permission: stats.skipped_permission,
                    skipped_watch_limit: one_more(stats.skipped_watch_limit),
                },
            )
        } else {
            (WalkStep::Fail, stats)
        },
    }
}

/// The step and the counts after a directory or one of its entries could
/// not be read: a denial of permission counts as passed over, any other
/// failure ends the walk.
pub open spec fn after_read_failure(stats: WatchStats, f: IoFailure) -> (WalkStep, WatchStats) {
    if f.permission_denied {
        (
            WalkStep::Skip,
            WatchStats {
                watched: stats.watched,
                skipped_permission: one_more(stats.skipped_permission),
                skipped_watch_limit: stats.skipped_watch_limit,
            },
        )
    } else {
        (WalkStep::Fail, stats)
    }
}

/// The position of the last path of a stack that the policy watches.
pub open spec fn last_watched(policy: PathPolicy, stack: Seq<String>) -> Option<int>
    decreases stack.len(),
{
    if stack.len() == 0 {
        None
    } else if policy.watches(stack.last()@) {
        Some(stack.len() - 1)
    } else {
        last_watched(policy, stack.drop_last())
    }
}

impl WatchWalk {
    /// The walk that starts at `root`, with nothing counted.
    pub fn new(root: String) -> (walk: Self)
        ensures
            walk.stack@ == seq![root],
            walk.stats == (WatchStats { watched: 0, skipped_permission: 0, skipped_watch_limit: 0 }),
    {
        let mut stack: Vec<String> = Vec::new();
        stack.push(root);
        WatchWalk { stack, stats: WatchStats { watched: 0, skipped_permission: 0, skipped_watch_limit: 0 } }
    }

    /// The next directory to try: the last found that the policy watches.
    /// It and what was found after it leave the stack. Nothing when no
    /// directory of the stack is watched; the walk is over then.
    pub fn next_path(&mut self, policy: &PathPolicy) -> (r: Option<String>)
        ensures
            final(self).stats == old(self).stats,
            match last_watched(*policy, old(self).stack@) {
                Some(i) => 0 <= i < old(self).stack@.len() && r == Some(old(self).stack@[i])
                    && final(self).stack@ == old(self).stack@.take(i) && policy.watches(r->0@),
                None => r is None && final(self).stack@.len() == 0,
            },
    {
        loop
            invariant
                self.stats == old(self).stats,
                self.stack@.len() <= old(self).stack@.len(),
                self.stack@ == old(self).stack@.take(self.stack@.len() as int),
                last_watched(*policy, old(self).stack@) == last_watched(*policy, self.stack@),
            decreases self.stack.len(),
        {
            let ghost before = self.stack@;
            match self.stack.pop() {
                None => {
                    return None;
                },
                Some(path) => {
                    proof {
                        assert(self.stack@ =~= before.drop_last());
                        assert(self.stack@ =~= old(self).stack@.take(self.stack@.len() as int));
                    }
                    if policy.should_watch(path.as_str()) {
                        return Some(path);
                    }
                },
            }
        }
    }

    /// Notes how the watch on a directory went; `outcome` is nothing if
    /// the watch was set.
    pub fn watch_result(&mut self, outcome: &Option<WatchFailure>) -> (step: WalkStep)
        ensures
            (step, final(self).stats) == after_watch(old(self).stats, *outcome),
            final(self).stack == old(self).stack,
    {
        match outcome {
            None => {
                self.stats.watched = bump(self.stats.watched);
                WalkStep::List
            },
            Some(w) => {
                if watch_failure_denied(w) {
                    self.stats.skipped_permission = bump(self.stats.skipped_permission);
                    WalkStep::Skip
                } else if watch_failure_limited(w) {
                    self.stats.skipped_watch_limit = bump(self.stats.skipped_watch_limit);
                    WalkStep::Skip
                } else {
                    WalkStep::Fail
                }
            },
        }
    }

    /// Notes that a directory, or an entry of one, could not be read.
    pub fn read_failure(&mut self, f: &IoFailure) -> (step: WalkStep)
        ensures
            (step, final(self).stats) == after_read_failure(old(self).stats, *f),
            final(self).stack == old(self).stack,
    {
        if failure_denied(f) {
            self.stats.skipped_permission = bump(self.stats.skipped_permission);
            WalkStep::Skip
        } else {
            WalkStep::Fail
        }
    }

    /// Notes that the watcher refused the watch on a directory: the step
    /// and the counts are those of `watch_result` for what is read of
    /// the error.
    pub fn watch_failed(&mut self, error: &notify::Error) -> (step: WalkStep)
        ensures
            (step, final(self).stats) == after_watch(old(self).stats, Some(watch_failure_of(*error))),
            final(self).stack == old(self).stack,
    {
        let outcome = Some(watch_failure(error));
        self.watch_result(&outcome)
    }

    /// Notes that the operating system refused to read a directory or an
    /// entry: the step and the counts are those of `read_failure` for what
    /// is read of the error.
    pub fn read_failed(&mut self, error: &std::io::Error) -> (step: WalkStep)
        ensures
            (step, final(self).stats) == after_read_failure(old(self).stats, io_failure_of(*error)),
            final(self).stack == old(self).stack,
    {
        let f = io_failure(error);
        self.read_failure(&f)
    }

    /// Notes a directory that was found in a listing: it is tried later
    /// if the policy watches it.
    pub fn found_dir(&mut self, policy: &PathPolicy, path: String)
        ensures
            final(self).stats == old(self).stats,
            final(self).stack@ == if policy.watches(path@) {
                old(self).stack@.push(path)
            } else {
                old(self).stack@
            },
    {
        if policy.should_watch(path.as_str()) {
            self.stack.push(path);
        }
    }
}

/// What becomes of the action that is pending for a path when another
/// event comes in: a removal replaces an upsert, an upsert replaces
/// whatever is pending, and the first event of a path is pending as it is.
pub open spec fn merged(pending: Option<Action>, incoming: Action) -> Action {
    match pending {
        None => incoming,
        Some(current) => if current != Action::Remove && incoming == Action::Remove {
            Action::Remove
        } else if incoming == Action::Upsert {
            Action::Upsert
        } else {
            current
        },
    }
}

/// Within a window the last event of a path decides.
pub proof fn law_latest_wins(pending: Option<Action>, incoming: Action)
    ensures
        merged(pending, incoming) == incoming,
{
}

/// The action that is pending for a path, if one is.
pub open spec fn pending_for(pending: Map<Seq<char>, Action>, path: Seq<char>) -> Option<Action> {
    if pending.contains_key(path) {
        Some(pending[path])
    } else {
        None
    }
}

/// The events of one window, taken together by path.
pub struct Coalescer {
    pending: VecMap<String, Action>,
}

/// One change of a batch: the path, what happened to it, and the inode of
/// the path when the batch is sent.
#[derive(Debug, PartialEq, Eq)]
pub struct FsChange {
    pub path: String,
    pub action: Action,
    pub inode: u64,
}

/// What a change says in a batch of the agent `node_id`: an upsert of the
/// file with its path, its inode and an unknown kind, or its removal.
pub open spec fn change_delta(node_id: Seq<char>, change: FsChange) -> DeltaView {
    match change.action {
        Action::Upsert => DeltaView::UpsertNode {
            id: file_id_text(node_id, change.path@),
            node: NodeView::File { path: change.path@, inode: change.inode, kind: FileKind::Unknown },
        },
        Action::Remove => DeltaView::RemoveNode { id: file_id_text(node_id, change.path@) },
    }
}

/// Whether `msgs` is the batch `batch_id` with the deltas `deltas`: the
/// begin of the batch, an event for each delta in order, and its end.
pub open spec fn is_batch(msgs: Seq<Msg>, batch_id: u64, deltas: Seq<DeltaView>) -> bool {
    &&& msgs.len() == deltas.len() + 2
    &&& delta_of(msgs[0]) == Some(DeltaView::BatchBegin { id: batch_id })
    &&& forall|i: int| 0 <= i < deltas.len() ==> delta_of(#[trigger] msgs[i + 1]) == Some(deltas[i])
    &&& delta_of(msgs[msgs.len() - 1]) == Some(DeltaView::BatchEnd { id: batch_id })
}

impl Coalescer {
    /// The actions that are pending, by path.
    pub closed spec fn pending(&self) -> Map<Seq<char>, Action> {
        self.pending@
    }

    /// The parts of the coalescer hold what they should.
    pub closed spec fn wf(&self) -> bool {
        self.pending.wf()
    }

    /// A coalescer with nothing pending.
    pub fn new() -> (c: Self)
        ensures
            c.wf(),
            c.pending() == Map::<Seq<char>, Action>::empty(),
    {
        Coalescer { pending: VecMap::new() }
    }

    /// Takes in an event for a path.
    pub fn absorb(&mut self, path: String, action: Action)
        requires
            old(self).wf(),
        ensures
            final(self).wf(),
            final(self).pending() == old(self).pending().insert(
                path@,
                merged(pending_for(old(self).pending(), path@), action),
            ),
    {
        let next = match self.pending.get(&path) {
            None => action,
            Some(current) => {
                match (current, action) {
                    (Action::Upsert, Action::Remove) => Action::Remove,
                    (_, Action::Upsert) => Action::Upsert,
                    (c, _) => *c,
                }
            },
        };
        self.pending.insert(path, next);
    }

    /// Whether nothing is pending.
    pub fn is_empty(&self) -> (r: bool)
        requires
            self.wf(),
        ensures
            r == (self.pending().len() == 0),
            r == (self.pending() == Map::<Seq<char>, Action>::empty()),
    {
        let n = self.pending.len();
        proof {
            self.pending.lemma_len();
            if n == 0 {
                assert(self.pending@ =~= Map::<Seq<char>, Action>::empty()) by {
                    assert forall|k: Seq<char>| !self.pending@.contains_key(k) by {
                        if self.pending@.contains_key(k) {
                            let p = position_of(self.pending.keys(), k);
                        }
                    }
                }
            }
        }
        n == 0
    }

    /// Takes out what is pending: every path once, with its action.
    pub fn take(&mut self) -> (out: Vec<(String, Action)>)
        requires
            old(self).wf(),
        ensures
            final(self).wf(),
            final(self).pending() == Map::<Seq<char>, Action>::empty(),
            out.len() == old(self).pending().len(),
            forall|i: int|
                0 <= i < out.len() ==> old(self).pending().contains_key((#[trigger] out[i]).0@) && old(
                    self,
                ).pending()[out[i].0@] == out[i].1,
            forall|i: int, j: int|
                0 <= i < j < out.len() ==> (#[trigger] out[i]).0@ != (#[trigger] out[j]).0@,
    {
        let mut out: Vec<(String, Action)> = Vec::new();
        let n = self.pending.len();
        let mut i: usize = 0;
        while i < n
            invariant
                i <= n,
                self.pending.wf(),
                *self == *old(self),
                n == self.pending.keys().len(),
                n == self.pending@.len(),
                out.len() == i,
                forall|j: int|
                    0 <= j < i ==> (#[trigger] out[j]).0@ == self.pending.keys()[j]@
                        && self.pending@.contains_key(out[j].0@) && self.pending@[out[j].0@] == out[j].1,
            decreases n - i,
        {
            let k = self.pending.key_at(i).clone();
            let v = *self.pending.val_at(i);
            out.push((k, v));
            i += 1;
        }
        proof {
            assert forall|i: int, j: int| 0 <= i < j < out.len() implies (#[trigger] out[i]).0@ != (
            #[trigger] out[j]).0@ by {
                assert(self.pending.keys()[i]@ != self.pending.keys()[j]@);
            }
        }
        self.pending.clear();
        out
    }
}

/// The number of the batch after the batch `id`; after the largest
/// number the count starts over.
pub fn next_batch_id(id: u64) -> (next: u64)
    ensures
        next == if id == u64::MAX {
            0
        } else {
            (id + 1) as u64
        },
{
    if id == u64::MAX {
        0
    } else {
        id + 1
    }
}

/// The deltas of a list of changes.
pub open spec fn change_deltas(node_id: Seq<char>, changes: Seq<FsChange>) -> Seq<DeltaView> {
    Seq::new(changes.len(), |i: int| change_delta(node_id, changes[i]))
}

/// The batch that tells of the given changes.
pub fn fs_batch(node_id: &str, batch_id: u64, changes: &Vec<FsChange>) -> (msgs: Vec<Msg>)
    ensures
        is_batch(msgs@, batch_id, change_deltas(node_id@, changes@)),
{
    let mut msgs: Vec<Msg> = Vec::new();
    msgs.push(Msg::Event { delta: Delta::BatchBegin { id: batch_id } });
    let mut i: usize = 0;
    while i < changes.len()
        invariant
            i <= changes.len(),
            msgs.len() == i + 1,
            delta_of(msgs[0]) == Some(DeltaView::BatchBegin { id: batch_id }),
            forall|j: int|
                0 <= j < i ==> delta_of(#[trigger] msgs[j + 1]) == Some(
                    change_delta(node_id@, changes[j]),
                ),
        decreases changes.len() - i,
    {
        let change = &changes[i];
        let id = id_file(node_id, change.path.as_str());
        let delta = match change.action {
            Action::Upsert => Delta::UpsertNode {
                id,
                node: Node::File {
                    path: change.path.clone(),
                    inode: change.inode,
                    kind: FileKind::Unknown,
                },
            },
            Action::Remove => Delta::RemoveNode { id },
        };
        let ghost before = msgs@;
        msgs.push(Msg::Event { delta });
        proof {
            assert forall|j: int| 0 <= j < i + 1 implies delta_of(#[trigger] msgs[j + 1]) == Some(
                change_delta(node_id@, changes[j]),
            ) by {
                if j < i {
                    assert(msgs[j + 1] == before[j + 1]);
                }
            }
        }
        i += 1;
    }
    msgs.push(Msg::Event { delta: Delta::BatchEnd { id: batch_id } });
    msgs
}

} // verus!
