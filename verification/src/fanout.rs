//! What the graph tells its watchers: snapshots, deltas, focus commands and
//! indexer status, and the order in which one subscriber sees them.

use vstd::prelude::*;
use vstd::string::*;
use crate::edge::GraphEdge;
use crate::graph::{ArborGraph, exported_in, lists_export, live_export};
use crate::node::{CodeNode, clone_strings};

verus! {

/// The kinds of message a server sends.
#[derive(Clone, Copy, Debug, PartialEq, Eq, Hash, Structural)]
pub enum ServerMessage {
    GraphUpdate,
    FocusNode,
    IndexerStatus,
}

/// The state of the graph, whole or after one change.
#[derive(Debug)]
pub struct GraphUpdatePayload {
    /// Whether this update follows a change, rather than being a snapshot.
    pub is_delta: bool,
    pub node_count: usize,
    pub edge_count: usize,
    pub file_count: usize,
    /// The files whose change this update follows.
    pub changed_files: Vec<String>,
    /// Seconds since the epoch.
    pub timestamp: u64,
    pub nodes: Option<Vec<CodeNode>>,
    pub edges: Option<Vec<GraphEdge>>,
}

/// A command to show one node.
#[derive(Debug)]
pub struct FocusNodePayload {
    pub node_id: String,
    pub file: String,
    pub line: u32,
}

/// How far the indexer has come.
#[derive(Debug)]
pub struct IndexerStatusPayload {
    pub phase: String,
    pub files_processed: usize,
    pub files_total: usize,
    pub current_file: Option<String>,
}

/// A message to every connected client.
#[derive(Debug)]
pub enum BroadcastMessage {
    GraphUpdate(GraphUpdatePayload),
    FocusNode(FocusNodePayload),
    IndexerStatus(IndexerStatusPayload),
}

/// `out` holds a copy of the node `n`.
pub open spec fn copies(out: Seq<CodeNode>, n: CodeNode) -> bool {
    exists|i: int| 0 <= i < out.len() && (#[trigger] out[i])@ == n@
}

/// `n` is a copy of a node that `nodes` holds.
pub open spec fn copy_of_live(nodes: Map<int, CodeNode>, n: CodeNode) -> bool {
    exists|h: int| #[trigger] nodes.contains_key(h) && nodes[h]@ == n@
}

impl GraphUpdatePayload {
    /// This update reports the whole of `graph`: its counts, a copy of every
    /// node and an export of every edge, the edges in ascending order of
    /// edge index.
    pub open spec fn reports(&self, graph: &ArborGraph) -> bool {
        &&& self.node_count == graph.nodes().len()
        &&& self.edge_count == graph.edges().len()
        &&& self.file_count == graph.files().len()
        &&& self.nodes.is_some()
        &&& self.nodes.unwrap()@.len() == graph.nodes().len()
        &&& forall|i: int|
            0 <= i < self.nodes.unwrap()@.len() ==> copy_of_live(graph.nodes(), #[trigger] self.nodes.unwrap()@[i])
        &&& forall|h: int| #[trigger]
            graph.nodes().contains_key(h) ==> copies(self.nodes.unwrap()@, graph.nodes()[h])
        &&& self.edges.is_some()
        &&& self.edges.unwrap()@.len() == graph.edges().len()
        &&& forall|i: int|
            0 <= i < self.edges.unwrap()@.len() ==> live_export(
                #[trigger] self.edges.unwrap()@[i],
                graph.nodes(),
                graph.edges(),
            )
        &&& forall|e: int| #[trigger]
            graph.edges().contains_key(e) ==> lists_export(self.edges.unwrap()@, graph.nodes(), graph.edges()[e])
        &&& exists|order: Seq<int>| #[trigger]
            exported_in(self.edges.unwrap()@, graph.nodes(), graph.edges(), order)
    }

    /// The state of `graph` at `timestamp`, as a delta after a change to
    /// `changed_files` or as a snapshot.
    pub fn of_graph(graph: &ArborGraph, is_delta: bool, changed_files: Vec<String>, timestamp: u64) -> (out:
        GraphUpdatePayload)
        requires
            graph.wf(),
        ensures
            out.is_delta == is_delta,
            out.changed_files == changed_files,
            out.timestamp == timestamp,
            out.reports(graph),
    {
        let stats = graph.stats();
        let live = graph.nodes_list();
        let mut nodes: Vec<CodeNode> = Vec::new();
        let mut i: usize = 0;
        while i < live.len()
            invariant
                i <= live.len(),
                nodes@.len() == i,
                forall|k: int| 0 <= k < i ==> (#[trigger] nodes@[k])@ == live@[k]@,
            decreases live.len() - i,
        {
            nodes.push(live[i].clone());
            i = i + 1;
        }
        let edges = graph.export_edges();
        proof {
            assert forall|k: int| 0 <= k < nodes@.len() implies copy_of_live(
                graph.nodes(),
                #[trigger] nodes@[k],
            ) by {
                assert(crate::graph::live_node(graph.nodes(), *live@[k]));
                let h = choose|h: int| #[trigger] graph.nodes().contains_key(h) && graph.nodes()[h] == *live@[k];
                assert(graph.nodes().contains_key(h) && graph.nodes()[h]@ == nodes@[k]@);
            }
            assert forall|h: int| #[trigger] graph.nodes().contains_key(h) implies copies(
                nodes@,
                graph.nodes()[h],
            ) by {
                assert(crate::graph::lists(live@, graph.nodes()[h]));
                let k = choose|k: int| 0 <= k < live@.len() && *(#[trigger] live@[k]) == graph.nodes()[h];
                assert(nodes@[k]@ == graph.nodes()[h]@);
            }
        }
        GraphUpdatePayload {
            is_delta,
            node_count: stats.node_count,
            edge_count: stats.edge_count,
            file_count: stats.files,
            changed_files,
            timestamp,
            nodes: Some(nodes),
            edges: Some(edges),
        }
    }
}

impl BroadcastMessage {
    /// The kind of the message.
    pub open spec fn kind(&self) -> ServerMessage {
        match self {
            BroadcastMessage::GraphUpdate(_) => ServerMessage::GraphUpdate,
            BroadcastMessage::FocusNode(_) => ServerMessage::FocusNode,
            BroadcastMessage::IndexerStatus(_) => ServerMessage::IndexerStatus,
        }
    }

    /// The message is a graph update that is no delta.
    pub open spec fn is_snapshot(&self) -> bool {
        match self {
            BroadcastMessage::GraphUpdate(p) => !p.is_delta,
            _ => false,
        }
    }

    /// The message is a graph update that follows a change.
    pub open spec fn is_delta(&self) -> bool {
        match self {
            BroadcastMessage::GraphUpdate(p) => p.is_delta,
            _ => false,
        }
    }

    /// The kind of the message.
    pub fn message_kind(&self) -> (out: ServerMessage)
        ensures
            out == self.kind(),
    {
        match self {
            BroadcastMessage::GraphUpdate(_) => ServerMessage::GraphUpdate,
            BroadcastMessage::FocusNode(_) => ServerMessage::FocusNode,
            BroadcastMessage::IndexerStatus(_) => ServerMessage::IndexerStatus,
        }
    }

    /// The name of the message's kind, as it is sent.
    pub fn kind_name(&self) -> (out: &'static str)
        ensures
            out@ == kind_label(self.kind()),
    {
        match self {
            BroadcastMessage::GraphUpdate(_) => "GraphUpdate",
            BroadcastMessage::FocusNode(_) => "FocusNode",
            BroadcastMessage::IndexerStatus(_) => "IndexerStatus",
        }
    }

    /// The snapshot of `graph` at `timestamp`: the update that a client gets
    /// first.
    pub fn snapshot(graph: &ArborGraph, timestamp: u64) -> (out: BroadcastMessage)
        requires
            graph.wf(),
        ensures
            out.is_snapshot(),
            out matches BroadcastMessage::GraphUpdate(p) && p.reports(graph) && p.timestamp == timestamp
                && p.changed_files@.len() == 0,
    {
        BroadcastMessage::GraphUpdate(GraphUpdatePayload::of_graph(graph, false, Vec::new(), timestamp))
    }

    /// The state of `graph` at `timestamp`, after the change to `file`.
    pub fn delta(graph: &ArborGraph, file: &str, timestamp: u64) -> (out: BroadcastMessage)
        requires
            graph.wf(),
        ensures
            out.is_delta(),
            out matches BroadcastMessage::GraphUpdate(p) && p.reports(graph) && p.timestamp == timestamp
                && p.changed_files@.len() == 1 && p.changed_files@[0]@ == file@,
    {
        let mut changed: Vec<String> = Vec::new();
        changed.push(String::from_str(file));
        BroadcastMessage::GraphUpdate(GraphUpdatePayload::of_graph(graph, true, changed, timestamp))
    }

    /// The command to show the node `node_id`, which is at `line` of `file`.
    pub fn focus(node_id: &str, file: &str, line: u32) -> (out: BroadcastMessage)
        ensures
            out matches BroadcastMessage::FocusNode(p) && p.node_id@ == node_id@ && p.file@ == file@ && p.line
                == line,
    {
        BroadcastMessage::FocusNode(
            FocusNodePayload { node_id: String::from_str(node_id), file: String::from_str(file), line },
        )
    }

    /// The report that the indexer is in `phase` and has processed
    /// `processed` of `total` files.
    pub fn status(phase: &str, processed: usize, total: usize, current: Option<&str>) -> (out: BroadcastMessage)
        ensures
            out matches BroadcastMessage::IndexerStatus(p) && p.phase@ == phase@ && p.files_processed
                == processed && p.files_total == total && p.current_file.is_some() == current.is_some() && (
            current.is_some() ==> p.current_file.unwrap()@ == current.unwrap()@),
    {
        BroadcastMessage::IndexerStatus(
            IndexerStatusPayload {
                phase: String::from_str(phase),
                files_processed: processed,
                files_total: total,
                current_file: match current {
                    Some(c) => Some(String::from_str(c)),
                    None => None,
                },
            },
        )
    }
}

/// The name of a kind of message, as it is sent.
pub open spec fn kind_label(kind: ServerMessage) -> Seq<char> {
    match kind {
        ServerMessage::GraphUpdate => "GraphUpdate"@,
        ServerMessage::FocusNode => "FocusNode"@,
        ServerMessage::IndexerStatus => "IndexerStatus"@,
    }
}

/// What a subscriber's channel hands it.
#[derive(Debug)]
pub enum Received {
    /// The next broadcast message.
    Message(BroadcastMessage),
    /// The subscriber fell behind and missed this many messages.
    Lagged(u64),
    /// The channel is closed.
    Closed,
}

/// What a client's socket hands the server.
#[derive(Debug)]
pub enum ClientFrame {
    /// A text message.
    Text(String),
    /// A ping with its payload.
    Ping(Vec<u8>),
    /// The client closes the connection.
    Close,
    /// The socket failed.
    Failed,
    /// The socket has ended.
    Ended,
    /// Any other frame.
    Other,
}

/// What the server does next for one subscriber.
#[derive(Debug)]
pub enum Step {
    /// Send this message to the client.
    Send(BroadcastMessage),
    /// Answer a ping with this payload.
    Pong(Vec<u8>),
    /// Tell the log that the client missed this many messages, and go on.
    ReportLag(u64),
    /// Do nothing.
    Skip,
    /// End the connection.
    Stop,
}

/// What a subscriber does with what its channel hands it: a message goes to
/// the client, unless it is a snapshot, which only the connection's start
/// may send; a lag is reported; a closed channel ends the connection.
pub open spec fn channel_step(received: Received) -> Step {
    match received {
        Received::Message(m) => if m.is_snapshot() {
            Step::Skip
        } else {
            Step::Send(m)
        },
        Received::Lagged(n) => Step::ReportLag(n),
        Received::Closed => Step::Stop,
    }
}

/// What the server does with what a client's socket hands it: a ping is
/// answered, text is read and ignored, and a close, a failure or the end of
/// the socket ends the connection.
pub open spec fn client_step(frame: ClientFrame) -> Step {
    match frame {
        ClientFrame::Ping(data) => Step::Pong(data),
        ClientFrame::Close => Step::Stop,
        ClientFrame::Failed => Step::Stop,
        ClientFrame::Ended => Step::Stop,
        ClientFrame::Text(_) => Step::Skip,
        ClientFrame::Other => Step::Skip,
    }
}

/// One client's subscription to the broadcast.
#[derive(Debug)]
pub struct Subscriber {
    /// How many messages the client has been sent.
    pub sent: u64,
}

impl Subscriber {
    /// Opens a subscription: the client is first sent a snapshot of `graph`.
    pub fn open(graph: &ArborGraph, timestamp: u64) -> (out: (Subscriber, BroadcastMessage))
        requires
            graph.wf(),
        ensures
            out.0.sent == 1,
            out.1.is_snapshot(),
            out.1 matches BroadcastMessage::GraphUpdate(p) && p.reports(graph) && p.timestamp == timestamp
                && p.changed_files@.len() == 0,
    {
        (Subscriber { sent: 1 }, BroadcastMessage::snapshot(graph, timestamp))
    }

    /// Decides what to do with what the channel handed over.
    pub fn on_channel(&mut self, received: Received) -> (out: Step)
        ensures
            out == channel_step(received),
            final(self).sent == (if out is Send && old(self).sent < u64::MAX {
                old(self).sent + 1
            } else {
                old(self).sent as int
            }),
    {
        match received {
            Received::Message(m) => {
                let skip = match &m {
                    BroadcastMessage::GraphUpdate(p) => !p.is_delta,
                    _ => false,
                };
                if skip {
                    Step::Skip
                } else {
                    if self.sent < u64::MAX {
                        self.sent = self.sent + 1;
                    }
                    Step::Send(m)
                }
            },
            Received::Lagged(n) => Step::ReportLag(n),
            Received::Closed => Step::Stop,
        }
    }

    /// Decides what to do with what the client's socket handed over.
    pub fn on_client(&self, frame: ClientFrame) -> (out: Step)
        ensures
            out == client_step(frame),
    {
        match frame {
            ClientFrame::Ping(data) => Step::Pong(data),
            ClientFrame::Close => Step::Stop,
            ClientFrame::Failed => Step::Stop,
            ClientFrame::Ended => Step::Stop,
            ClientFrame::Text(_) => Step::Skip,
            ClientFrame::Other => Step::Skip,
        }
    }
}

/// The messages a client is sent when its channel hands over `received`, in
/// order.
pub open spec fn relayed(received: Seq<Received>) -> Seq<BroadcastMessage>
    decreases received.len(),
{
    if received.len() == 0 {
        Seq::empty()
    } else {
        let before = relayed(received.drop_last());
        match channel_step(received.last()) {
            Step::Send(m) => before.push(m),
            _ => before,
        }
    }
}

/// What a client that subscribed and was sent `first` observes when its
/// channel hands over `received`.
pub open spec fn observed(first: BroadcastMessage, received: Seq<Received>) -> Seq<BroadcastMessage> {
    seq![first] + relayed(received)
}

/// A stream starts with a snapshot, and every graph update after it is a
/// delta.
pub open spec fn snapshot_first(stream: Seq<BroadcastMessage>) -> bool {
    &&& stream.len() >= 1
    &&& stream[0].is_snapshot()
    &&& forall|i: int|
        1 <= i < stream.len() ==> (#[trigger] stream[i]).kind() == ServerMessage::GraphUpdate ==> stream[i].is_delta()
}

/// No message that is relayed is a snapshot.
pub proof fn lemma_relayed_no_snapshot(received: Seq<Received>)
    ensures
        forall|i: int| 0 <= i < relayed(received).len() ==> !(#[trigger] relayed(received)[i]).is_snapshot(),
    decreases received.len(),
{
    if received.len() > 0 {
        lemma_relayed_no_snapshot(received.drop_last());
        let before = relayed(received.drop_last());
        assert forall|i: int| 0 <= i < relayed(received).len() implies !(#[trigger] relayed(
            received,
        )[i]).is_snapshot() by {
            if i < before.len() {
                assert(relayed(received)[i] == before[i]);
            }
        }
    }
}

/// Whatever the channel hands over, a new subscriber observes one snapshot
/// followed only by deltas, focus commands and status reports: no delta
/// precedes the snapshot, and no second snapshot follows it.
pub proof fn lemma_snapshot_first(first: BroadcastMessage, received: Seq<Received>)
    requires
        first.is_snapshot(),
    ensures
        snapshot_first(observed(first, received)),
{
    lemma_relayed_no_snapshot(received);
    let stream = observed(first, received);
    assert forall|i: int| 1 <= i < stream.len() && (#[trigger] stream[i]).kind()
        == ServerMessage::GraphUpdate implies stream[i].is_delta() by {
        assert(stream[i] == relayed(received)[i - 1]);
    }
}

/// The channel handing over the messages `messages`, one by one.
pub open spec fn arrivals(messages: Seq<BroadcastMessage>) -> Seq<Received> {
    Seq::new(messages.len(), |i: int| Received::Message(messages[i]))
}

/// Messages that the channel hands over are relayed in the order in which
/// they arrive, none dropped and none repeated, as long as none of them is
/// a snapshot: a subscriber that was sent `first` then observes `first`
/// followed by exactly these messages.
pub proof fn lemma_relayed_in_order(first: BroadcastMessage, messages: Seq<BroadcastMessage>)
    requires
        forall|i: int| 0 <= i < messages.len() ==> !(#[trigger] messages[i]).is_snapshot(),
    ensures
        relayed(arrivals(messages)) == messages,
        observed(first, arrivals(messages)) == seq![first] + messages,
    decreases messages.len(),
{
    if messages.len() == 0 {
        assert(relayed(arrivals(messages)) =~= messages);
    } else {
        lemma_relayed_in_order(first, messages.drop_last());
        assert(arrivals(messages).drop_last() =~= arrivals(messages.drop_last()));
        assert(arrivals(messages).last() == Received::Message(messages.last()));
        assert(!messages[messages.len() - 1].is_snapshot());
        assert(relayed(arrivals(messages)) =~= messages.drop_last().push(messages.last()));
        assert(messages.drop_last().push(messages.last()) =~= messages);
    }
}

/// A lag signal sends the client nothing and does not end the connection:
/// what the client observes is the same with the signal as without.
pub proof fn lemma_lag_is_passed_over(first: BroadcastMessage, received: Seq<Received>, missed: u64)
    ensures
        channel_step(Received::Lagged(missed)) == Step::ReportLag(missed),
        observed(first, received.push(Received::Lagged(missed))) == observed(first, received),
{
    let longer = received.push(Received::Lagged(missed));
    assert(longer.drop_last() =~= received);
    assert(longer.last() == Received::Lagged(missed));
}

} // verus!
