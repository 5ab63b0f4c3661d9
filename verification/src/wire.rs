//! The data model that agent and viewer share: nodes, edges, deltas and the
//! messages that carry them, and the three constructors of node identifiers.

use vstd::prelude::*;
use crate::collections::Key;
use crate::text::{
    decimal, push_decimal, push_signed_decimal, push_str, signed_decimal, string_of, Text,
};

verus! {

/// An identifier of a node, unique within one agent. Viewers treat it as an
/// opaque key.
#[derive(Debug, PartialEq, Eq, Hash)]
pub struct NodeId(pub String);

impl View for NodeId {
    type V = Seq<char>;

    open spec fn view(&self) -> Seq<char> {
        self.0@
    }
}

impl Clone for NodeId {
    fn clone(&self) -> (r: Self)
        ensures
            r == *self,
    {
        NodeId(self.0.clone())
    }
}

impl Key for NodeId {
    fn same(&self, other: &Self) -> (r: bool) {
        self.0 == other.0
    }

    fn duplicate(&self) -> (r: Self) {
        self.clone()
    }
}

impl Text for NodeId {
    open spec fn text(&self) -> Seq<char> {
        self@
    }

    fn as_text(&self) -> (s: &str) {
        self.0.as_str()
    }
}

/// What kind of file a path names.
#[derive(Debug, Clone, Copy, PartialEq, Eq, Structural)]
pub enum FileKind {
    Regular,
    Dir,
    Socket,
    Pipe,
    Device,
    Unknown,
}

/// An entity of the host.
#[derive(Debug, PartialEq, Eq)]
pub enum Node {
    Process { pid: i32, ppid: i32, exe: String, cmdline: String, uid: u32 },
    File { path: String, inode: u64, kind: FileKind },
    User { uid: u32, name: String },
}

/// A node by value.
pub enum NodeView {
    Process { pid: i32, ppid: i32, exe: Seq<char>, cmdline: Seq<char>, uid: u32 },
    File { path: Seq<char>, inode: u64, kind: FileKind },
    User { uid: u32, name: Seq<char> },
}

impl View for Node {
    type V = NodeView;

    open spec fn view(&self) -> NodeView {
        match self {
            Node::Process { pid, ppid, exe, cmdline, uid } => NodeView::Process {
                pid: *pid,
                ppid: *ppid,
                exe: exe@,
                cmdline: cmdline@,
                uid: *uid,
            },
            Node::File { path, inode, kind } => NodeView::File { path: path@, inode: *inode, kind: *kind },
            Node::User { uid, name } => NodeView::User { uid: *uid, name: name@ },
        }
    }
}

impl Clone for Node {
    fn clone(&self) -> (r: Self)
        ensures
            r == *self,
    {
        match self {
            Node::Process { pid, ppid, exe, cmdline, uid } => Node::Process {
                pid: *pid,
                ppid: *ppid,
                exe: exe.clone(),
                cmdline: cmdline.clone(),
                uid: *uid,
            },
            Node::File { path, inode, kind } => Node::File {
                path: path.clone(),
                inode: *inode,
                kind: *kind,
            },
            Node::User { uid, name } => Node::User { uid: *uid, name: name.clone() },
        }
    }
}

/// How an edge relates its endpoints.
#[derive(Debug, PartialEq, Eq, Hash)]
pub enum EdgeKind {
    /// A process holds a file descriptor; `mode` is one of `r`, `w`, `rw`, `?`.
    Opens { fd: i32, mode: String },
    Execs,
    RunsAs,
}

/// An edge kind by value: the descriptor and the mode's characters count.
pub enum EdgeKindView {
    Opens { fd: i32, mode: Seq<char> },
    Execs,
    RunsAs,
}

impl View for EdgeKind {
    type V = EdgeKindView;

    open spec fn view(&self) -> EdgeKindView {
        match self {
            EdgeKind::Opens { fd, mode } => EdgeKindView::Opens { fd: *fd, mode: mode@ },
            EdgeKind::Execs => EdgeKindView::Execs,
            EdgeKind::RunsAs => EdgeKindView::RunsAs,
        }
    }
}

impl Clone for EdgeKind {
    fn clone(&self) -> (r: Self)
        ensures
            r == *self,
    {
        match self {
            EdgeKind::Opens { fd, mode } => EdgeKind::Opens { fd: *fd, mode: mode.clone() },
            EdgeKind::Execs => EdgeKind::Execs,
            EdgeKind::RunsAs => EdgeKind::RunsAs,
        }
    }
}

impl Key for EdgeKind {
    fn same(&self, other: &Self) -> (r: bool) {
        match self {
            EdgeKind::Opens { fd, mode } => match other {
                EdgeKind::Opens { fd: fd2, mode: mode2 } => *fd == *fd2 && *mode == *mode2,
                _ => false,
            },
            EdgeKind::Execs => match other {
                EdgeKind::Execs => true,
                _ => false,
            },
            EdgeKind::RunsAs => match other {
                EdgeKind::RunsAs => true,
                _ => false,
            },
        }
    }

    fn duplicate(&self) -> (r: Self) {
        self.clone()
    }
}

/// A directed, typed edge. Two edges are the same edge when source, target
/// and kind agree, the descriptor and mode of an `Opens` included.
#[derive(Debug, PartialEq, Eq, Hash)]
pub struct Edge {
    pub from: NodeId,
    pub to: NodeId,
    pub kind: EdgeKind,
}

/// An edge by value.
pub struct EdgeView {
    pub from: Seq<char>,
    pub to: Seq<char>,
    pub kind: EdgeKindView,
}

impl View for Edge {
    type V = EdgeView;

    open spec fn view(&self) -> EdgeView {
        EdgeView { from: self.from@, to: self.to@, kind: self.kind@ }
    }
}

impl Clone for Edge {
    fn clone(&self) -> (r: Self)
        ensures
            r == *self,
    {
        Edge { from: self.from.clone(), to: self.to.clone(), kind: self.kind.clone() }
    }
}

impl Key for Edge {
    fn same(&self, other: &Self) -> (r: bool) {
        self.from.same(&other.from) && self.to.same(&other.to) && self.kind.same(&other.kind)
    }

    fn duplicate(&self) -> (r: Self) {
        self.clone()
    }
}

#[allow(inconsistent_fields)]
/// One change to the graph. Deltas between a `BatchBegin` and the `BatchEnd`
/// with the same id form a batch.
#[derive(Debug, PartialEq, Eq)]
pub enum Delta {
    BatchBegin { id: u64 },
    BatchEnd { id: u64 },
    UpsertNode { id: NodeId, node: Node },
    RemoveNode { id: NodeId },
    UpsertEdge { edge: Edge },
    RemoveEdge { edge: Edge },
}

/// A delta by value.
#[allow(inconsistent_fields)]
pub enum DeltaView {
    BatchBegin { id: u64 },
    BatchEnd { id: u64 },
    UpsertNode { id: Seq<char>, node: NodeView },
    RemoveNode { id: Seq<char> },
    UpsertEdge { edge: EdgeView },
    RemoveEdge { edge: EdgeView },
}

impl View for Delta {
    type V = DeltaView;

    open spec fn view(&self) -> DeltaView {
        match self {
            Delta::BatchBegin { id } => DeltaView::BatchBegin { id: *id },
            Delta::BatchEnd { id } => DeltaView::BatchEnd { id: *id },
            Delta::UpsertNode { id, node } => DeltaView::UpsertNode { id: id@, node: node@ },
            Delta::RemoveNode { id } => DeltaView::RemoveNode { id: id@ },
            Delta::UpsertEdge { edge } => DeltaView::UpsertEdge { edge: edge@ },
            Delta::RemoveEdge { edge } => DeltaView::RemoveEdge { edge: edge@ },
        }
    }
}

/// The delta of an event message; nothing for any other message.
pub open spec fn delta_of(msg: Msg) -> Option<DeltaView> {
    match msg {
        Msg::Event { delta } => Some(delta@),
        _ => None,
    }
}

impl Clone for Delta {
    fn clone(&self) -> (r: Self)
        ensures
            r == *self,
    {
        match self {
            Delta::BatchBegin { id } => Delta::BatchBegin { id: *id },
            Delta::BatchEnd { id } => Delta::BatchEnd { id: *id },
            Delta::UpsertNode { id, node } => Delta::UpsertNode { id: id.clone(), node: node.clone() },
            Delta::RemoveNode { id } => Delta::RemoveNode { id: id.clone() },
            Delta::UpsertEdge { edge } => Delta::UpsertEdge { edge: edge.clone() },
            Delta::RemoveEdge { edge } => Delta::RemoveEdge { edge: edge.clone() },
        }
    }
}

/// What an agent actually produces.
#[derive(Debug, Clone, Copy, PartialEq, Eq, Structural)]
pub struct Capabilities {
    pub procfs: bool,
    pub fd_edges: bool,
    pub fs_notify: bool,
    pub proc_poll: bool,
    pub ebpf: bool,
    pub cloud: bool,
    pub windows: bool,
}

/// Who an agent is.
#[derive(Debug, PartialEq, Eq)]
pub struct NodeIdentity {
    pub node_id: String,
    pub hostname: String,
    pub platform: String,
    pub arch: String,
}

impl Clone for NodeIdentity {
    fn clone(&self) -> (r: Self)
        ensures
            r == *self,
    {
        NodeIdentity {
            node_id: self.node_id.clone(),
            hostname: self.hostname.clone(),
            platform: self.platform.clone(),
            arch: self.arch.clone(),
        }
    }
}

/// A message of the wire protocol.
#[derive(Debug, PartialEq, Eq)]
pub enum Msg {
    Hello { version: String },
    Identity { ident: NodeIdentity, caps: Capabilities },
    RequestSnapshot,
    Snapshot { nodes: Vec<(NodeId, Node)>, edges: Vec<Edge> },
    Event { delta: Delta },
    Ping,
    Pong,
}

/// Whether two messages say the same: they are the same message, or
/// snapshots of the same nodes and edges.
pub open spec fn same_msg(a: Msg, b: Msg) -> bool {
    match (a, b) {
        (Msg::Snapshot { nodes, edges }, Msg::Snapshot { nodes: nodes2, edges: edges2 }) => nodes@
            == nodes2@ && edges@ == edges2@,
        _ => a == b,
    }
}

impl Clone for Msg {
    fn clone(&self) -> (r: Self)
        ensures
            same_msg(*self, r),
            delta_of(r) == delta_of(*self),
    {
        match self {
            Msg::Hello { version } => Msg::Hello { version: version.clone() },
            Msg::Identity { ident, caps } => Msg::Identity { ident: ident.clone(), caps: *caps },
            Msg::RequestSnapshot => Msg::RequestSnapshot,
            Msg::Snapshot { nodes, edges } => {
                let mut ns: Vec<(NodeId, Node)> = Vec::new();
                let mut i: usize = 0;
                while i < nodes.len()
                    invariant
                        i <= nodes.len(),
                        ns@ == nodes@.take(i as int),
                    decreases nodes.len() - i,
                {
                    let entry = &nodes[i];
                    ns.push((entry.0.clone(), entry.1.clone()));
                    i += 1;
                    assert(nodes@.take(i as int) =~= nodes@.take(i - 1).push(nodes@[i - 1]));
                }
                let mut es: Vec<Edge> = Vec::new();
                let mut j: usize = 0;
                while j < edges.len()
                    invariant
                        j <= edges.len(),
                        es@ == edges@.take(j as int),
                    decreases edges.len() - j,
                {
                    es.push(edges[j].clone());
                    j += 1;
                    assert(edges@.take(j as int) =~= edges@.take(j - 1).push(edges@[j - 1]));
                }
                assert(nodes@.take(nodes.len() as int) =~= nodes@);
                assert(edges@.take(edges.len() as int) =~= edges@);
                assert(ns@ =~= nodes@);
                assert(es@ =~= edges@);
                Msg::Snapshot { nodes: ns, edges: es }
            },
            Msg::Event { delta } => Msg::Event { delta: delta.clone() },
            Msg::Ping => Msg::Ping,
            Msg::Pong => Msg::Pong,
        }
    }
}

/// The identifier of a process: `{node}:process:pid:{pid}`.
pub open spec fn process_id_text(node_id: Seq<char>, pid: int) -> Seq<char> {
    node_id + ":process:pid:"@ + signed_decimal(pid)
}

/// The identifier of a user: `{node}:user:{uid}`.
pub open spec fn user_id_text(node_id: Seq<char>, uid: nat) -> Seq<char> {
    node_id + ":user:"@ + decimal(uid)
}

/// The identifier of a file: `{node}:file:{path}`.
pub open spec fn file_id_text(node_id: Seq<char>, path: Seq<char>) -> Seq<char> {
    node_id + ":file:"@ + path
}

/// The identifier of the process `pid` on the agent `node_id`.
pub fn id_process(node_id: &str, pid: i32) -> (id: NodeId)
    ensures
        id@ == process_id_text(node_id@, pid as int),
{
    let mut out: Vec<char> = Vec::new();
    push_str(&mut out, node_id);
    push_str(&mut out, ":process:pid:");
    push_signed_decimal(&mut out, pid as i64);
    NodeId(string_of(&out))
}

/// The identifier of the user `uid` on the agent `node_id`.
pub fn id_user(node_id: &str, uid: u32) -> (id: NodeId)
    ensures
        id@ == user_id_text(node_id@, uid as nat),
{
    let mut out: Vec<char> = Vec::new();
    push_str(&mut out, node_id);
    push_str(&mut out, ":user:");
    push_decimal(&mut out, uid as u64);
    NodeId(string_of(&out))
}

/// The identifier of the file at `path` on the agent `node_id`.
pub fn id_file(node_id: &str, path: &str) -> (id: NodeId)
    ensures
        id@ == file_id_text(node_id@, path@),
{
    let mut out: Vec<char> = Vec::new();
    push_str(&mut out, node_id);
    push_str(&mut out, ":file:");
    push_str(&mut out, path);
    NodeId(string_of(&out))
}

} // verus!
