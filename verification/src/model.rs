//! The entities of a graph snapshot.

use crate::addr::SocketAddr;
use vstd::prelude::*;

verus! {

/// One node's terms for forwarding payments over a channel.
#[derive(Clone, Copy, Debug, PartialEq, Eq)]
pub struct NodePolicy {
    pub time_lock_delta: u16,
    pub min_htlc: u64,
    pub fee_base_msat: u64,
    pub fee_rate_milli_msat: u64,
    pub disabled: bool,
    pub max_htlc_msat: u64,
    pub last_update: u32,
}

/// A payment channel between two nodes.
#[derive(Clone, Debug, PartialEq, Eq)]
pub struct Edge {
    pub channel_id: String,
    pub chan_point: String,
    pub last_update: u32,
    pub node1_pub: String,
    pub node2_pub: String,
    pub capacity: u32,
    pub node1_policy: Option<NodePolicy>,
    pub node2_policy: Option<NodePolicy>,
}

/// A network endpoint of a node.
#[derive(Clone, Debug, PartialEq, Eq)]
pub struct Address {
    pub network: String,
    pub addr: SocketAddr,
}

/// A participant in the graph.
#[derive(Clone, Debug, PartialEq, Eq)]
pub struct Node {
    pub last_update: u32,
    pub pub_key: String,
    pub alias: String,
    pub addresses: Vec<Address>,
    pub color: String,
}

/// A snapshot of nodes and channels, each in the order of the document.
#[derive(Clone, Debug, PartialEq, Eq)]
pub struct Graph {
    pub nodes: Vec<Node>,
    pub edges: Vec<Edge>,
}

/// The mathematical value of an [`Edge`].
pub struct EdgeView {
    pub channel_id: Seq<char>,
    pub chan_point: Seq<char>,
    pub last_update: u32,
    pub node1_pub: Seq<char>,
    pub node2_pub: Seq<char>,
    pub capacity: u32,
    pub node1_policy: Option<NodePolicy>,
    pub node2_policy: Option<NodePolicy>,
}

/// The mathematical value of an [`Address`].
pub struct AddressView {
    pub network: Seq<char>,
    pub addr: SocketAddr,
}

/// The mathematical value of a [`Node`].
pub struct NodeView {
    pub last_update: u32,
    pub pub_key: Seq<char>,
    pub alias: Seq<char>,
    pub addresses: Seq<AddressView>,
    pub color: Seq<char>,
}

/// The mathematical value of a [`Graph`].
pub struct GraphView {
    pub nodes: Seq<NodeView>,
    pub edges: Seq<EdgeView>,
}

impl View for Edge {
    type V = EdgeView;

    open spec fn view(&self) -> EdgeView {
        EdgeView {
            channel_id: self.channel_id@,
            chan_point: self.chan_point@,
            last_update: self.last_update,
            node1_pub: self.node1_pub@,
            node2_pub: self.node2_pub@,
            capacity: self.capacity,
            node1_policy: self.node1_policy,
            node2_policy: self.node2_policy,
        }
    }
}

impl View for Address {
    type V = AddressView;

    open spec fn view(&self) -> AddressView {
        AddressView { network: self.network@, addr: self.addr }
    }
}

/// The values of a sequence of addresses.
pub open spec fn addresses_view(addresses: Seq<Address>) -> Seq<AddressView> {
    Seq::new(addresses.len(), |i: int| addresses[i]@)
}

impl View for Node {
    type V = NodeView;

    open spec fn view(&self) -> NodeView {
        NodeView {
            last_update: self.last_update,
            pub_key: self.pub_key@,
            alias: self.alias@,
            addresses: addresses_view(self.addresses@),
            color: self.color@,
        }
    }
}

/// The values of a sequence of nodes.
pub open spec fn nodes_view(nodes: Seq<Node>) -> Seq<NodeView> {
    Seq::new(nodes.len(), |i: int| nodes[i]@)
}

/// The values of a sequence of edges.
pub open spec fn edges_view(edges: Seq<Edge>) -> Seq<EdgeView> {
    Seq::new(edges.len(), |i: int| edges[i]@)
}

impl View for Graph {
    type V = GraphView;

    open spec fn view(&self) -> GraphView {
        GraphView { nodes: nodes_view(self.nodes@), edges: edges_view(self.edges@) }
    }
}

} // verus!
