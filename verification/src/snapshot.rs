//! The graph that the agent builds of what it read of the process file
//! system: for every process its node, the user it runs as, the file it
//! executes and the files it has open, as far as the path policy lets
//! them through.

use vstd::prelude::*;
use crate::collections::{distinct_keys, key_set, Key, VecMap, VecSet};
use crate::path_policy::{is_absolute, starts_at_root, PathPolicy};
use crate::procfs_text::{
    fd_mode_from_flags, file_kind_from_path, flags_in, kind_of_path, mode_text, names_of,
    parse_fd_flags,
};
use crate::text::{
    decimal, join_texts, joined, push_decimal, push_str, split_at, string_of, texts_of,
};
use crate::wire::{file_id_text, id_file, id_process, id_user, process_id_text, user_id_text, Edge, EdgeKind, EdgeKindView, EdgeView, Node, NodeId, NodeView};

verus! {

/// What was read of one open file descriptor: its number, the path it
/// points at, the inode of that path, and its description in the process
/// file system, if that could be read.
#[derive(Debug, PartialEq, Eq)]
pub struct FdRecord {
    pub fd: i32,
    pub target: String,
    pub inode: u64,
    pub fdinfo: Option<String>,
}

/// What was read of one process. What could not be read is nothing.
#[derive(Debug, PartialEq, Eq)]
pub struct ProcessRecord {
    pub pid: i32,
    pub ppid: i32,
    pub uid: Option<u32>,
    pub exe: Option<String>,
    pub exe_inode: u64,
    pub cmdline: Option<Vec<String>>,
    pub fds: Vec<FdRecord>,
}

/// Whether all of a process could be read: its user, its executable and
/// its command line. A process of which a part could not be read is
/// passed over.
pub open spec fn complete(rec: ProcessRecord) -> bool {
    rec.uid is Some && rec.exe is Some && rec.cmdline is Some
}

/// A graph by value: nodes by identifier, and edges.
pub struct Graph {
    pub nodes: Map<Seq<char>, NodeView>,
    pub edges: Set<EdgeView>,
}

/// The nodes and edges that are gathered, nodes in the order in which
/// they were found.
pub struct GraphParts {
    pub nodes: VecMap<NodeId, Node>,
    pub edges: VecSet<Edge>,
}

/// The nodes of a map by value.
pub open spec fn node_views(nodes: Map<Seq<char>, Node>) -> Map<Seq<char>, NodeView> {
    Map::new(|id: Seq<char>| nodes.contains_key(id), |id: Seq<char>| nodes[id]@)
}

impl View for GraphParts {
    type V = Graph;

    open spec fn view(&self) -> Graph {
        Graph { nodes: node_views(self.nodes@), edges: self.edges@ }
    }
}

impl GraphParts {
    /// The parts hold what they should.
    pub open spec fn wf(&self) -> bool {
        self.nodes.wf() && self.edges.wf()
    }

    /// No nodes and no edges.
    pub fn new() -> (parts: Self)
        ensures
            parts.wf(),
            parts@ == empty_graph(),
    {
        let parts = GraphParts { nodes: VecMap::new(), edges: VecSet::new() };
        assert(parts@.nodes =~= Map::<Seq<char>, NodeView>::empty());
        parts
    }
}

/// The graph without nodes and edges.
pub open spec fn empty_graph() -> Graph {
    Graph { nodes: Map::<Seq<char>, NodeView>::empty(), edges: Set::<EdgeView>::empty() }
}

/// The executable of a process that was read in full.
pub open spec fn exe_text(rec: ProcessRecord) -> Seq<char>
    recommends
        complete(rec),
{
    rec.exe->0@
}

/// The command line of a process that was read in full, its words apart
/// by blanks.
pub open spec fn cmdline_text(rec: ProcessRecord) -> Seq<char>
    recommends
        complete(rec),
{
    joined(texts_of(rec.cmdline->0@), " "@)
}

/// The user of a process that was read in full.
pub open spec fn uid_of(rec: ProcessRecord) -> u32
    recommends
        complete(rec),
{
    rec.uid->0
}

/// The name of a user: that of the user database, and `uid` with the
/// number for a user that it does not hold.
pub open spec fn user_name(names: Map<u32, Seq<char>>, uid: u32) -> Seq<char> {
    if names.contains_key(uid) {
        names[uid]
    } else {
        "uid"@ + decimal(uid as nat)
    }
}

/// Whether a path is let through: a path that starts at the root if the
/// policy watches it, and any other text, such as a socket or a pipe,
/// always. Without a policy everything is let through.
pub open spec fn keeps(policy: Option<&PathPolicy>, path: Seq<char>) -> bool {
    match policy {
        Some(p) => !is_absolute(path) || p.watches(path),
        None => true,
    }
}

/// The nodes with `node` under `id`, unless they hold a node under `id`.
pub open spec fn or_insert(nodes: Map<Seq<char>, NodeView>, id: Seq<char>, node: NodeView) -> Map<
    Seq<char>,
    NodeView,
> {
    if nodes.contains_key(id) {
        nodes
    } else {
        nodes.insert(id, node)
    }
}

/// How a file descriptor is open, as its description says; `?` where it
/// says nothing.
pub open spec fn fd_mode(fd: FdRecord) -> Seq<char> {
    match fd.fdinfo {
        Some(content) => match flags_in(split_at(content@, '\n')) {
            Some(flags) => mode_text(flags),
            None => "?"@,
        },
        None => "?"@,
    }
}

/// The file node of a path.
pub open spec fn file_node(path: Seq<char>, inode: u64) -> NodeView {
    NodeView::File { path, inode, kind: kind_of_path(path) }
}

/// The graph with what one file descriptor of the process `pid_id` adds:
/// the file, unless it is known, and the edge that the process has it
/// open; nothing if the path is not let through.
pub open spec fn with_fd(
    g: Graph,
    node_id: Seq<char>,
    policy: Option<&PathPolicy>,
    pid_id: Seq<char>,
    fd: FdRecord,
) -> Graph {
    if keeps(policy, fd.target@) {
        Graph {
            nodes: or_insert(
                g.nodes,
                file_id_text(node_id, fd.target@),
                file_node(fd.target@, fd.inode),
            ),
            edges: g.edges.insert(
                EdgeView {
                    from: pid_id,
                    to: file_id_text(node_id, fd.target@),
                    kind: EdgeKindView::Opens { fd: fd.fd, mode: fd_mode(fd) },
                },
            ),
        }
    } else {
        g
    }
}

/// The graph with what the given file descriptors add, in their order.
pub open spec fn with_fds(
    g: Graph,
    node_id: Seq<char>,
    policy: Option<&PathPolicy>,
    pid_id: Seq<char>,
    fds: Seq<FdRecord>,
) -> Graph
    decreases fds.len(),
{
    if fds.len() == 0 {
        g
    } else {
        with_fd(with_fds(g, node_id, policy, pid_id, fds.drop_last()), node_id, policy, pid_id, fds.last())
    }
}

/// The graph with the process itself, its user and its executable: each
/// node is added unless a node of its identifier is known, and the
/// executable only if its path is let through.
pub open spec fn with_process_head(
    g: Graph,
    node_id: Seq<char>,
    names: Map<u32, Seq<char>>,
    policy: Option<&PathPolicy>,
    rec: ProcessRecord,
) -> Graph {
    let pid_id = process_id_text(node_id, rec.pid as int);
    let uid = uid_of(rec);
    let exe = exe_text(rec);
    let user_id = user_id_text(node_id, uid as nat);
    let n1 = or_insert(
        g.nodes,
        pid_id,
        NodeView::Process { pid: rec.pid, ppid: rec.ppid, exe, cmdline: cmdline_text(rec), uid },
    );
    let n2 = or_insert(n1, user_id, NodeView::User { uid, name: user_name(names, uid) });
    let e1 = g.edges.insert(EdgeView { from: pid_id, to: user_id, kind: EdgeKindView::RunsAs });
    if keeps(policy, exe) {
        Graph {
            nodes: or_insert(n2, file_id_text(node_id, exe), file_node(exe, rec.exe_inode)),
            edges: e1.insert(
                EdgeView { from: pid_id, to: file_id_text(node_id, exe), kind: EdgeKindView::Execs },
            ),
        }
    } else {
        Graph { nodes: n2, edges: e1 }
    }
}

/// The graph with all that one process adds; a process that was not read
/// in full adds nothing.
pub open spec fn with_process(
    g: Graph,
    node_id: Seq<char>,
    names: Map<u32, Seq<char>>,
    policy: Option<&PathPolicy>,
    rec: ProcessRecord,
) -> Graph {
    if complete(rec) {
        with_fds(
            with_process_head(g, node_id, names, policy, rec),
            node_id,
            policy,
            process_id_text(node_id, rec.pid as int),
            rec.fds@,
        )
    } else {
        g
    }
}

/// The graph with all that the given processes add, in their order.
pub open spec fn with_processes(
    g: Graph,
    node_id: Seq<char>,
    names: Map<u32, Seq<char>>,
    policy: Option<&PathPolicy>,
    recs: Seq<ProcessRecord>,
) -> Graph
    decreases recs.len(),
{
    if recs.len() == 0 {
        g
    } else {
        with_process(
            with_processes(g, node_id, names, policy, recs.drop_last()),
            node_id,
            names,
            policy,
            recs.last(),
        )
    }
}

/// Whether a path is let through by a policy.
pub fn should_keep_path(policy: &PathPolicy, path: &str) -> (r: bool)
    ensures
        r == keeps(Some(policy), path@),
{
    if starts_at_root(path) {
        policy.should_watch(path)
    } else {
        true
    }
}

/// Whether the user database is read at all: only if the policy watches it.
pub fn wants_passwd(policy: &PathPolicy) -> (r: bool)
    ensures
        r == policy.watches("/etc/passwd"@),
{
    policy.should_watch("/etc/passwd")
}

fn lets_through(policy: Option<&PathPolicy>, path: &str) -> (r: bool)
    ensures
        r == keeps(policy, path@),
{
    match policy {
        Some(p) => should_keep_path(p, path),
        None => true,
    }
}

fn add_unless_known(nodes: &mut VecMap<NodeId, Node>, id: NodeId, node: Node)
    requires
        old(nodes).wf(),
    ensures
        final(nodes).wf(),
        node_views(final(nodes)@) == or_insert(node_views(old(nodes)@), id@, node@),
{
    if !nodes.contains_key(&id) {
        nodes.insert(id, node);
        assert(node_views(nodes@) =~= or_insert(node_views(old(nodes)@), id@, node@));
    }
}

fn name_of_user(users: &VecMap<u32, String>, uid: u32) -> (name: String)
    requires
        users.wf(),
    ensures
        name@ == user_name(names_of(users@), uid),
{
    match users.get(&uid) {
        Some(name) => name.clone(),
        None => {
            let mut out: Vec<char> = Vec::new();
            push_str(&mut out, "uid");
            push_decimal(&mut out, uid as u64);
            string_of(&out)
        },
    }
}

fn mode_of_fd(fd: &FdRecord) -> (mode: String)
    ensures
        mode@ == fd_mode(*fd),
{
    match &fd.fdinfo {
        Some(content) => {
            match parse_fd_flags(content.as_str()) {
                Some(flags) => fd_mode_from_flags(flags),
                None => String::from_str("?"),
            }
        },
        None => String::from_str("?"),
    }
}

/// Adds to the graph what the file descriptors of a process add.
pub fn add_fd_edges(
    parts: &mut GraphParts,
    node_id: &str,
    policy: Option<&PathPolicy>,
    proc_id: &NodeId,
    fds: &Vec<FdRecord>,
)
    requires
        old(parts).wf(),
    ensures
        final(parts).wf(),
        final(parts)@ == with_fds(old(parts)@, node_id@, policy, proc_id@, fds@),
{
    let mut i: usize = 0;
    proof {
        assert(fds@.take(0) =~= Seq::<FdRecord>::empty());
    }
    while i < fds.len()
        invariant
            i <= fds.len(),
            parts.wf(),
            parts@ == with_fds(old(parts)@, node_id@, policy, proc_id@, fds@.take(i as int)),
        decreases fds.len() - i,
    {
        let fd = &fds[i];
        proof {
            assert(fds@.take(i + 1).drop_last() =~= fds@.take(i as int));
            assert(fds@.take(i + 1).last() == *fd);
        }
        if lets_through(policy, fd.target.as_str()) {
            let f_id = id_file(node_id, fd.target.as_str());
            let node = Node::File {
                path: fd.target.clone(),
                inode: fd.inode,
                kind: file_kind_from_path(fd.target.as_str()),
            };
            add_unless_known(&mut parts.nodes, f_id.clone(), node);
            let mode = mode_of_fd(fd);
            parts.edges.insert(
                Edge { from: proc_id.clone(), to: f_id, kind: EdgeKind::Opens { fd: fd.fd, mode } },
            );
        }
        i += 1;
    }
    proof {
        assert(fds@.take(fds.len() as int) =~= fds@);
    }
}

/// Adds to the graph what one process adds; nothing for a process that
/// was not read in full.
pub fn add_process(
    parts: &mut GraphParts,
    node_id: &str,
    users: &VecMap<u32, String>,
    policy: Option<&PathPolicy>,
    rec: &ProcessRecord,
)
    requires
        old(parts).wf(),
        users.wf(),
    ensures
        final(parts).wf(),
        final(parts)@ == with_process(old(parts)@, node_id@, names_of(users@), policy, *rec),
{
    let uid = match rec.uid {
        Some(u) => u,
        None => {
            return ;
        },
    };
    let exe = match &rec.exe {
        Some(e) => e.clone(),
        None => {
            return ;
        },
    };
    let cmdline = match &rec.cmdline {
        Some(words) => join_texts(words, " "),
        None => {
            return ;
        },
    };
    let proc_id = id_process(node_id, rec.pid);
    let ghost before = parts@;
    add_unless_known(
        &mut parts.nodes,
        proc_id.clone(),
        Node::Process { pid: rec.pid, ppid: rec.ppid, exe: exe.clone(), cmdline, uid },
    );
    let user_id = id_user(node_id, uid);
    let name = name_of_user(users, uid);
    add_unless_known(&mut parts.nodes, user_id.clone(), Node::User { uid, name });
    parts.edges.insert(Edge { from: proc_id.clone(), to: user_id, kind: EdgeKind::RunsAs });
    if lets_through(policy, exe.as_str()) {
        let exe_id = id_file(node_id, exe.as_str());
        let node = Node::File {
            path: exe.clone(),
            inode: rec.exe_inode,
            kind: file_kind_from_path(exe.as_str()),
        };
        add_unless_known(&mut parts.nodes, exe_id.clone(), node);
        parts.edges.insert(Edge { from: proc_id.clone(), to: exe_id, kind: EdgeKind::Execs });
    }
    proof {
        assert(parts@ == with_process_head(before, node_id@, names_of(users@), policy, *rec));
    }
    add_fd_edges(parts, node_id, policy, &proc_id, &rec.fds);
}

/// Whether the lists hold the graph `g`: every node once under its
/// identifier, and every edge once.
pub open spec fn lists_graph(nodes: Seq<(NodeId, Node)>, edges: Seq<Edge>, g: Graph) -> bool {
    &&& forall|i: int, j: int|
        0 <= i < j < nodes.len() ==> (#[trigger] nodes[i]).0@ != (#[trigger] nodes[j]).0@
    &&& forall|i: int|
        0 <= i < nodes.len() ==> g.nodes.contains_key((#[trigger] nodes[i]).0@) && g.nodes[nodes[i].0@]
            == nodes[i].1@
    &&& nodes.len() == g.nodes.len()
    &&& distinct_keys(edges)
    &&& key_set(edges) == g.edges
}

/// The nodes and edges of gathered parts, as lists.
pub fn into_lists(parts: GraphParts) -> (lists: (Vec<(NodeId, Node)>, Vec<Edge>))
    requires
        parts.wf(),
    ensures
        lists_graph(lists.0@, lists.1@, parts@),
{
    let mut nodes: Vec<(NodeId, Node)> = Vec::new();
    let n = parts.nodes.len();
    let mut i: usize = 0;
    while i < n
        invariant
            i <= n,
            parts.wf(),
            n == parts.nodes.keys().len(),
            nodes.len() == i,
            forall|j: int|
                0 <= j < i ==> (#[trigger] nodes[j]).0@ == parts.nodes.keys()[j]@
                    && parts.nodes@.contains_key(nodes[j].0@) && parts.nodes@[nodes[j].0@] == nodes[j].1,
        decreases n - i,
    {
        let k = parts.nodes.key_at(i).clone();
        let v = parts.nodes.val_at(i).clone();
        nodes.push((k, v));
        i += 1;
    }
    let mut edges: Vec<Edge> = Vec::new();
    let m = parts.edges.len();
    let mut j: usize = 0;
    while j < m
        invariant
            j <= m,
            parts.wf(),
            m == parts.edges.items().len(),
            edges.len() == j,
            forall|k: int| 0 <= k < j ==> (#[trigger] edges[k])@ == parts.edges.items()[k]@,
        decreases m - j,
    {
        edges.push(parts.edges.item_at(j).clone());
        j += 1;
    }
    proof {
        parts.nodes.lemma_len();
        assert(parts@.nodes.dom() =~= parts.nodes@.dom());
        assert forall|a: int, b: int| 0 <= a < b < nodes.len() implies (#[trigger] nodes[a]).0@ != (
        #[trigger] nodes[b]).0@ by {
            assert(parts.nodes.keys()[a]@ != parts.nodes.keys()[b]@);
        }
        assert forall|a: int, b: int| 0 <= a < b < edges.len() implies (#[trigger] edges[a])@ != (
        #[trigger] edges[b])@ by {
            assert(parts.edges.items()[a]@ != parts.edges.items()[b]@);
        }
        assert(key_set(edges@) =~= parts.edges@) by {
            assert forall|q: EdgeView| key_set(edges@).contains(q) <==> parts.edges@.contains(q) by {
                if crate::collections::has_key(edges@, q) {
                    let p = crate::collections::position_of(edges@, q);
                    assert(parts.edges.items()[p]@ == q);
                }
                if crate::collections::has_key(parts.edges.items(), q) {
                    let p = crate::collections::position_of(parts.edges.items(), q);
                    assert(edges@[p]@ == q);
                }
            }
        }
    }
    (nodes, edges)
}

/// The graph of all processes that were read in full, with the names of
/// the user database and under a path policy: nodes and edges, each once,
/// and of two nodes with one identifier the first.
pub fn build_snapshot(
    node_id: &str,
    policy: &PathPolicy,
    users: &VecMap<u32, String>,
    records: &Vec<ProcessRecord>,
) -> (lists: (Vec<(NodeId, Node)>, Vec<Edge>))
    requires
        users.wf(),
    ensures
        lists_graph(
            lists.0@,
            lists.1@,
            with_processes(empty_graph(), node_id@, names_of(users@), Some(policy), records@),
        ),
{
    let mut parts = GraphParts::new();
    let mut i: usize = 0;
    proof {
        assert(records@.take(0) =~= Seq::<ProcessRecord>::empty());
    }
    while i < records.len()
        invariant
            i <= records.len(),
            parts.wf(),
            users.wf(),
            parts@ == with_processes(
                empty_graph(),
                node_id@,
                names_of(users@),
                Some(policy),
                records@.take(i as int),
            ),
        decreases records.len() - i,
    {
        proof {
            assert(records@.take(i + 1).drop_last() =~= records@.take(i as int));
            assert(records@.take(i + 1).last() == records@[i as int]);
        }
        add_process(&mut parts, node_id, users, Some(policy), &records[i]);
        i += 1;
    }
    proof {
        assert(records@.take(records.len() as int) =~= records@);
    }
    into_lists(parts)
}

/// The nodes and edges of one process, without a path policy: the
/// process first, then its user, its executable and its open files.
/// Nothing for a process that was not read in full.
pub fn collect_process_detail(
    node_id: &str,
    users: &VecMap<u32, String>,
    rec: &ProcessRecord,
) -> (detail: Option<(Vec<(NodeId, Node)>, Vec<Edge>)>)
    requires
        users.wf(),
    ensures
        detail is Some <==> complete(*rec),
        detail matches Some(lists) ==> lists_graph(
            lists.0@,
            lists.1@,
            with_process(empty_graph(), node_id@, names_of(users@), None, *rec),
        ),
{
    if rec.uid.is_none() || rec.exe.is_none() || rec.cmdline.is_none() {
        return None;
    }
    let mut parts = GraphParts::new();
    add_process(&mut parts, node_id, users, None, rec);
    Some(into_lists(parts))
}

} // verus!
