//! What the agent says to a viewer that connects, in which order, and
//! who the agent says it is.

use vstd::prelude::*;
use crate::text::{trim, trimmed};
use crate::viewer_config::{default_uds_path, socket_path};
use crate::watch_proc::node_upserts;
use crate::wire::{delta_of, same_msg, Capabilities, Delta, Msg, Node, NodeId, NodeIdentity};

verus! {

/// How many messages the bus holds for viewers that fall behind.
pub const BUS_CAPACITY: usize = 32_768;

/// How many messages a watcher may have on their way to the bus.
pub const WATCHER_QUEUE_CAPACITY: usize = 8_192;

/// The version of the protocol.
pub open spec fn protocol_version() -> Seq<char> {
    "0.1.0"@
}

/// The message that opens a connection.
pub fn hello() -> (msg: Msg)
    ensures
        msg matches Msg::Hello { version } && version@ == protocol_version(),
{
    Msg::Hello { version: String::from_str("0.1.0") }
}

/// The path of the socket, given what `XDG_RUNTIME_DIR` holds.
pub fn runtime_sock_path(runtime_dir: Option<&str>) -> (path: String)
    ensures
        path@ == socket_path(
            match runtime_dir {
                Some(dir) => Some(dir@),
                None => None,
            },
        ),
{
    default_uds_path(runtime_dir)
}

/// The name of an agent: the name it was given if that is more than white
/// space, else the name of its host, and `node` where that is unknown.
pub open spec fn node_name(given: Option<Seq<char>>, hostname: Option<Seq<char>>) -> Seq<char> {
    if given is Some && trimmed(given->0).len() > 0 {
        given->0
    } else if hostname is Some {
        hostname->0
    } else {
        "node"@
    }
}

/// The name of the agent, given what `SPACEGRAPH_NODE_ID` holds and what
/// the host is called.
pub fn default_node_id(given: Option<&str>, hostname: Option<&str>) -> (id: String)
    ensures
        id@ == node_name(
            match given {
                Some(s) => Some(s@),
                None => None,
            },
            match hostname {
                Some(s) => Some(s@),
                None => None,
            },
        ),
{
    match given {
        Some(s) => {
            if !trim(s).is_empty() {
                return String::from_str(s);
            }
        },
        None => {},
    }
    match hostname {
        Some(h) => String::from_str(h),
        None => String::from_str("node"),
    }
}

/// What this agent produces: the graph of processes with the edges of
/// their file descriptors, file system events and process polling.
pub fn capabilities() -> (caps: Capabilities)
    ensures
        caps == (Capabilities {
            procfs: true,
            fd_edges: true,
            fs_notify: true,
            proc_poll: true,
            ebpf: false,
            cloud: false,
            windows: false,
        }),
{
    Capabilities {
        procfs: true,
        fd_edges: true,
        fs_notify: true,
        proc_poll: true,
        ebpf: false,
        cloud: false,
        windows: false,
    }
}

/// The message by which the agent says who it is.
pub fn identity_msg(node_id: &str, hostname: &str, platform: &str, arch: &str) -> (msg: Msg)
    ensures
        msg matches Msg::Identity { ident, caps } && ident.node_id@ == node_id@ && ident.hostname@
            == hostname@ && ident.platform@ == platform@ && ident.arch@ == arch@ && caps.procfs
            && caps.fd_edges && caps.fs_notify && caps.proc_poll && !caps.ebpf && !caps.cloud
            && !caps.windows,
{
    Msg::Identity {
        ident: NodeIdentity {
            node_id: String::from_str(node_id),
            hostname: String::from_str(hostname),
            platform: String::from_str(platform),
            arch: String::from_str(arch),
        },
        caps: capabilities(),
    }
}

/// The snapshot once more as events: an upsert for every node, in order.
pub fn snapshot_node_events(nodes: &Vec<(NodeId, Node)>) -> (msgs: Vec<Msg>)
    ensures
        msgs.len() == nodes.len(),
        forall|i: int|
            0 <= i < msgs.len() ==> delta_of(#[trigger] msgs[i]) == Some(node_upserts(nodes@)[i]),
{
    let mut msgs: Vec<Msg> = Vec::new();
    let mut i: usize = 0;
    while i < nodes.len()
        invariant
            i <= nodes.len(),
            msgs.len() == i,
            forall|j: int|
                0 <= j < i ==> delta_of(#[trigger] msgs[j]) == Some(node_upserts(nodes@)[j]),
        decreases nodes.len() - i,
    {
        let entry = &nodes[i];
        msgs.push(Msg::Event { delta: Delta::UpsertNode { id: entry.0.clone(), node: entry.1.clone() } });
        i += 1;
    }
    msgs
}

/// What a viewer is sent when it connects, in order: the hello, who the
/// agent is, the snapshot, and the events of the snapshot's nodes.
pub fn greeting(identity: &Msg, snapshot: &Msg, node_events: &Vec<Msg>) -> (msgs: Vec<Msg>)
    ensures
        msgs.len() == node_events.len() + 3,
        msgs[0] matches Msg::Hello { version } && version@ == protocol_version(),
        same_msg(*identity, msgs[1]),
        same_msg(*snapshot, msgs[2]),
        forall|i: int| 0 <= i < node_events.len() ==> same_msg(node_events[i], #[trigger] msgs[i + 3]),
{
    let mut msgs: Vec<Msg> = Vec::new();
    msgs.push(hello());
    msgs.push(identity.clone());
    msgs.push(snapshot.clone());
    let mut i: usize = 0;
    while i < node_events.len()
        invariant
            i <= node_events.len(),
            msgs.len() == i + 3,
            msgs[0] matches Msg::Hello { version } && version@ == protocol_version(),
            same_msg(*identity, msgs[1]),
            same_msg(*snapshot, msgs[2]),
            forall|j: int| 0 <= j < i ==> same_msg(node_events[j], #[trigger] msgs[j + 3]),
        decreases node_events.len() - i,
    {
        let ghost before = msgs@;
        msgs.push(node_events[i].clone());
        proof {
            assert forall|j: int| 0 <= j < i + 1 implies same_msg(node_events[j], #[trigger] msgs[j + 3]) by {
                if j < i {
                    assert(msgs[j + 3] == before[j + 3]);
                }
            }
        }
        i += 1;
    }
    msgs
}

/// What the bus hands to the stream of a viewer.
pub enum BusEvent {
    /// A message.
    Message(Msg),
    /// The viewer fell behind and has missed messages.
    Lagged,
    /// The bus is closed.
    Closed,
}

/// What the stream of a viewer does next.
pub enum StreamStep {
    /// Sends the message.
    Send(Msg),
    /// Goes on reading the bus.
    Continue,
    /// Ends the connection.
    End,
}

/// What the stream of a viewer does with what the bus hands it: a
/// message is sent, a lag is passed over, and a closed bus ends the stream.
pub fn stream_step(event: BusEvent) -> (step: StreamStep)
    ensures
        step == match event {
            BusEvent::Message(msg) => StreamStep::Send(msg),
            BusEvent::Lagged => StreamStep::Continue,
            BusEvent::Closed => StreamStep::End,
        },
{
    match event {
        BusEvent::Message(msg) => StreamStep::Send(msg),
        BusEvent::Lagged => StreamStep::Continue,
        BusEvent::Closed => StreamStep::End,
    }
}

} // verus!
