//! The encoder: from a graph to the JSON document that describes it, and the
//! proof that decoding that document gives the graph back.
//!
//! Members are written in the order in which the schema lists them. A number
//! that the schema keeps in a quoted string is written in base ten without a
//! sign or leading zeros, a socket address as `SocketAddr::to_text` writes it,
//! and a policy that is absent as `null`.

use crate::addr::{lemma_socket_addr_round_trip, socket_addr_string};
use crate::decode::{
    address_of, address_outcomes, coerced_unsigned, collect, edge_of, node_of, optional_policy,
    policy_of,
};
use crate::error::{DecodeErrorView, Field};
use crate::json::{
    items_view, lemma_array_view, lemma_object_view, member, members_view, Json, JsonValue,
};
use crate::model::{
    addresses_view, edges_view, nodes_view, Address, AddressView, Edge, EdgeView, Graph,
    GraphView, Node, NodePolicy, NodeView,
};
use crate::text::{decimal_text, is_digit, lemma_decimal_text, push_decimal};
use vstd::prelude::*;

verus! {

/// A number as the schema writes it natively.
pub open spec fn native(n: nat) -> JsonValue {
    JsonValue::Number(Some(n as u64))
}

/// A number as the schema writes it in a quoted string.
pub open spec fn quoted(n: nat) -> JsonValue {
    JsonValue::Text(decimal_text(n))
}

/// The document of a forwarding policy.
pub open spec fn policy_json(p: NodePolicy) -> JsonValue {
    JsonValue::Object(
        seq![
            (Field::TimeLockDelta.name(), native(p.time_lock_delta as nat)),
            (Field::MinHtlc.name(), quoted(p.min_htlc as nat)),
            (Field::FeeBaseMsat.name(), quoted(p.fee_base_msat as nat)),
            (Field::FeeRateMilliMsat.name(), quoted(p.fee_rate_milli_msat as nat)),
            (Field::Disabled.name(), JsonValue::Bool(p.disabled)),
            (Field::MaxHtlcMsat.name(), quoted(p.max_htlc_msat as nat)),
            (Field::LastUpdate.name(), native(p.last_update as nat)),
        ],
    )
}

/// The document of a policy that may be absent.
pub open spec fn optional_policy_json(p: Option<NodePolicy>) -> JsonValue {
    match p {
        Some(p) => policy_json(p),
        None => JsonValue::Null,
    }
}

/// The document of an edge.
pub open spec fn edge_json(e: EdgeView) -> JsonValue {
    JsonValue::Object(
        seq![
            (Field::ChannelId.name(), JsonValue::Text(e.channel_id)),
            (Field::ChanPoint.name(), JsonValue::Text(e.chan_point)),
            (Field::LastUpdate.name(), native(e.last_update as nat)),
            (Field::Node1Pub.name(), JsonValue::Text(e.node1_pub)),
            (Field::Node2Pub.name(), JsonValue::Text(e.node2_pub)),
            (Field::Capacity.name(), quoted(e.capacity as nat)),
            (Field::Node1Policy.name(), optional_policy_json(e.node1_policy)),
            (Field::Node2Policy.name(), optional_policy_json(e.node2_policy)),
        ],
    )
}

/// The document of a network address.
pub open spec fn address_json(a: AddressView) -> JsonValue {
    JsonValue::Object(
        seq![
            (Field::Network.name(), JsonValue::Text(a.network)),
            (Field::Addr.name(), JsonValue::Text(socket_addr_string(a.addr))),
        ],
    )
}

/// The documents of a list of addresses.
pub open spec fn addresses_json(addresses: Seq<AddressView>) -> Seq<JsonValue> {
    Seq::new(addresses.len(), |i: int| address_json(addresses[i]))
}

/// The document of a node.
pub open spec fn node_json(n: NodeView) -> JsonValue {
    JsonValue::Object(
        seq![
            (Field::LastUpdate.name(), native(n.last_update as nat)),
            (Field::PubKey.name(), JsonValue::Text(n.pub_key)),
            (Field::Alias.name(), JsonValue::Text(n.alias)),
            (Field::Addresses.name(), JsonValue::Array(addresses_json(n.addresses))),
            (Field::Color.name(), JsonValue::Text(n.color)),
        ],
    )
}

/// The documents of a list of nodes.
pub open spec fn nodes_json(nodes: Seq<NodeView>) -> Seq<JsonValue> {
    Seq::new(nodes.len(), |i: int| node_json(nodes[i]))
}

/// The documents of a list of edges.
pub open spec fn edges_json(edges: Seq<EdgeView>) -> Seq<JsonValue> {
    Seq::new(edges.len(), |i: int| edge_json(edges[i]))
}

/// The document of a graph.
pub open spec fn graph_json(g: GraphView) -> JsonValue {
    JsonValue::Object(
        seq![
            (Field::Nodes.name(), JsonValue::Array(nodes_json(g.nodes))),
            (Field::Edges.name(), JsonValue::Array(edges_json(g.edges))),
        ],
    )
}

/// No two keys of the schema are written alike.
pub proof fn lemma_names_differ(f: Field, g: Field)
    requires
        f != g,
    ensures
        f.name() != g.name(),
{
    reveal_strlit("nodes");
    reveal_strlit("edges");
    reveal_strlit("last_update");
    reveal_strlit("pub_key");
    reveal_strlit("alias");
    reveal_strlit("addresses");
    reveal_strlit("color");
    reveal_strlit("network");
    reveal_strlit("addr");
    reveal_strlit("channel_id");
    reveal_strlit("chan_point");
    reveal_strlit("node1_pub");
    reveal_strlit("node2_pub");
    reveal_strlit("capacity");
    reveal_strlit("node1_policy");
    reveal_strlit("node2_policy");
    reveal_strlit("time_lock_delta");
    reveal_strlit("min_htlc");
    reveal_strlit("fee_base_msat");
    reveal_strlit("fee_rate_milli_msat");
    reveal_strlit("disabled");
    reveal_strlit("max_htlc_msat");
    let a = f.name();
    let b = g.name();
    if a.len() == b.len() {
        assert(a[0] != b[0] || a[1] != b[1] || a[4] != b[4]);
    }
}

/// In an object whose keys are distinct keys of the schema, each member is
/// found under its key.
pub proof fn lemma_member_at(
    members: Seq<(Seq<char>, JsonValue)>,
    fields: Seq<Field>,
    i: int,
)
    requires
        members.len() == fields.len(),
        0 <= i < members.len(),
        forall|j: int| 0 <= j < fields.len() ==> (#[trigger] members[j]).0 == fields[j].name(),
        forall|j: int| 0 <= j < i ==> #[trigger] fields[j] != fields[i],
    ensures
        member(members, fields[i].name()) == Some(members[i].1),
    decreases i,
{
    if i > 0 {
        lemma_names_differ(fields[0], fields[i]);
        let rest = members.skip(1);
        let later = fields.skip(1);
        assert forall|j: int| 0 <= j < later.len() implies (#[trigger] rest[j]).0
            == later[j].name() by {
            assert(rest[j] == members[j + 1]);
        }
        assert forall|j: int| 0 <= j < i - 1 implies #[trigger] later[j] != later[i - 1] by {
            assert(later[j] == fields[j + 1]);
        }
        lemma_member_at(rest, later, i - 1);
        assert(members[0].0 == fields[0].name());
    } else {
        assert(members[0].0 == fields[0].name());
    }
}

/// A number written in a quoted string decodes to itself where it fits.
pub proof fn lemma_quoted_round_trip(n: nat, max: nat)
    requires
        n <= max,
    ensures
        coerced_unsigned(quoted(n), max) == Ok::<nat, DecodeErrorView>(n),
{
    lemma_decimal_text(n);
    assert(is_digit(decimal_text(n)[0]));
}

/// The keys of a policy, in the order of the schema.
pub open spec fn policy_fields() -> Seq<Field> {
    seq![
        Field::TimeLockDelta,
        Field::MinHtlc,
        Field::FeeBaseMsat,
        Field::FeeRateMilliMsat,
        Field::Disabled,
        Field::MaxHtlcMsat,
        Field::LastUpdate,
    ]
}

/// The keys of an edge, in the order of the schema.
pub open spec fn edge_fields() -> Seq<Field> {
    seq![
        Field::ChannelId,
        Field::ChanPoint,
        Field::LastUpdate,
        Field::Node1Pub,
        Field::Node2Pub,
        Field::Capacity,
        Field::Node1Policy,
        Field::Node2Policy,
    ]
}

/// The keys of a node, in the order of the schema.
pub open spec fn node_fields() -> Seq<Field> {
    seq![Field::LastUpdate, Field::PubKey, Field::Alias, Field::Addresses, Field::Color]
}

/// The document of a policy decodes to the policy.
pub proof fn lemma_policy_round_trip(p: NodePolicy)
    ensures
        policy_of(policy_json(p)) == Ok::<NodePolicy, DecodeErrorView>(p),
{
    let m = policy_json(p)->Object_0;
    let fields = policy_fields();
    lemma_member_at(m, fields, 0);
    lemma_member_at(m, fields, 1);
    lemma_member_at(m, fields, 2);
    lemma_member_at(m, fields, 3);
    lemma_member_at(m, fields, 4);
    lemma_member_at(m, fields, 5);
    lemma_member_at(m, fields, 6);
    lemma_quoted_round_trip(p.min_htlc as nat, 0xffff_ffff_ffff_ffff);
    lemma_quoted_round_trip(p.fee_base_msat as nat, 0xffff_ffff_ffff_ffff);
    lemma_quoted_round_trip(p.fee_rate_milli_msat as nat, 0xffff_ffff_ffff_ffff);
    lemma_quoted_round_trip(p.max_htlc_msat as nat, 0xffff_ffff_ffff_ffff);
}

/// The document of a policy that may be absent decodes to it.
proof fn lemma_optional_policy_round_trip(
    members: Seq<(Seq<char>, JsonValue)>,
    field: Field,
    p: Option<NodePolicy>,
)
    requires
        member(members, field.name()) == Some(optional_policy_json(p)),
    ensures
        optional_policy(members, field) == Ok::<Option<NodePolicy>, DecodeErrorView>(p),
{
    if let Some(q) = p {
        lemma_policy_round_trip(q);
    }
}

/// The document of an edge decodes to the edge.
pub proof fn lemma_edge_round_trip(e: EdgeView)
    ensures
        edge_of(edge_json(e)) == Ok::<EdgeView, DecodeErrorView>(e),
{
    let m = edge_json(e)->Object_0;
    let fields = edge_fields();
    lemma_member_at(m, fields, 0);
    lemma_member_at(m, fields, 1);
    lemma_member_at(m, fields, 2);
    lemma_member_at(m, fields, 3);
    lemma_member_at(m, fields, 4);
    lemma_member_at(m, fields, 5);
    lemma_member_at(m, fields, 6);
    lemma_member_at(m, fields, 7);
    lemma_quoted_round_trip(e.capacity as nat, 0xffff_ffff);
    lemma_optional_policy_round_trip(m, Field::Node1Policy, e.node1_policy);
    lemma_optional_policy_round_trip(m, Field::Node2Policy, e.node2_policy);
}

/// The document of an address decodes to the address.
pub proof fn lemma_address_round_trip(a: AddressView)
    ensures
        address_of(address_json(a)) == Ok::<AddressView, DecodeErrorView>(a),
{
    let m = address_json(a)->Object_0;
    let fields = seq![Field::Network, Field::Addr];
    lemma_member_at(m, fields, 0);
    lemma_member_at(m, fields, 1);
    lemma_socket_addr_round_trip(a.addr);
}

/// Outcomes that are all good collect to their values.
pub proof fn lemma_collect_values<T>(outcomes: Seq<Result<T, DecodeErrorView>>, xs: Seq<T>)
    requires
        outcomes.len() == xs.len(),
        forall|i: int|
            0 <= i < xs.len() ==> #[trigger] outcomes[i] == Ok::<T, DecodeErrorView>(xs[i]),
    ensures
        collect(outcomes) == Ok::<Seq<T>, DecodeErrorView>(xs),
    decreases outcomes.len(),
{
    if outcomes.len() > 0 {
        lemma_collect_values(outcomes.drop_last(), xs.drop_last());
        assert(xs.drop_last().push(xs.last()) =~= xs);
    } else {
        assert(xs =~= Seq::<T>::empty());
    }
}

/// The document of a node decodes to the node.
pub proof fn lemma_node_round_trip(n: NodeView)
    ensures
        node_of(node_json(n)) == Ok::<NodeView, DecodeErrorView>(n),
{
    let m = node_json(n)->Object_0;
    let fields = node_fields();
    lemma_member_at(m, fields, 0);
    lemma_member_at(m, fields, 1);
    lemma_member_at(m, fields, 2);
    lemma_member_at(m, fields, 3);
    lemma_member_at(m, fields, 4);
    let outcomes = address_outcomes(addresses_json(n.addresses));
    assert forall|i: int| 0 <= i < n.addresses.len() implies #[trigger] outcomes[i] == Ok::<
        AddressView,
        DecodeErrorView,
    >(n.addresses[i]) by {
        lemma_address_round_trip(n.addresses[i]);
    }
    lemma_collect_values(outcomes, n.addresses);
}

fn member_of(field: Field, value: Json) -> (m: (String, Json))
    ensures
        m.0@ == field.name(),
        m.1@ == value@,
{
    (String::from_str(field.key()), value)
}

fn native_json(n: u64) -> (j: Json)
    ensures
        j@ == native(n as nat),
{
    Json::Number(Some(n))
}

fn quoted_json(n: u64) -> (j: Json)
    ensures
        j@ == quoted(n as nat),
{
    let mut s = String::new();
    push_decimal(&mut s, n);
    assert(s@ =~= decimal_text(n as nat));
    Json::Text(s)
}

fn text_json(s: &String) -> (j: Json)
    ensures
        j@ == JsonValue::Text(s@),
{
    Json::Text(s.clone())
}

fn object_json(members: Vec<(String, Json)>) -> (j: Json)
    ensures
        j@ == JsonValue::Object(members_view(members@)),
{
    proof {
        lemma_object_view(members);
    }
    Json::Object(members)
}

fn array_json(items: Vec<Json>) -> (j: Json)
    ensures
        j@ == JsonValue::Array(items_view(items@)),
{
    proof {
        lemma_array_view(items);
    }
    Json::Array(items)
}

impl NodePolicy {
    /// The document of this policy.
    pub fn to_json(&self) -> (j: Json)
        ensures
            j@ == policy_json(*self),
    {
        let mut m: Vec<(String, Json)> = Vec::new();
        m.push(member_of(Field::TimeLockDelta, native_json(self.time_lock_delta as u64)));
        m.push(member_of(Field::MinHtlc, quoted_json(self.min_htlc)));
        m.push(member_of(Field::FeeBaseMsat, quoted_json(self.fee_base_msat)));
        m.push(member_of(Field::FeeRateMilliMsat, quoted_json(self.fee_rate_milli_msat)));
        m.push(member_of(Field::Disabled, Json::Bool(self.disabled)));
        m.push(member_of(Field::MaxHtlcMsat, quoted_json(self.max_htlc_msat)));
        m.push(member_of(Field::LastUpdate, native_json(self.last_update as u64)));
        assert(members_view(m@) =~= policy_json(*self)->Object_0);
        object_json(m)
    }
}

fn optional_policy_to_json(p: &Option<NodePolicy>) -> (j: Json)
    ensures
        j@ == optional_policy_json(*p),
{
    match p {
        Some(p) => p.to_json(),
        None => Json::Null,
    }
}

impl Edge {
    /// The document of this edge.
    pub fn to_json(&self) -> (j: Json)
        ensures
            j@ == edge_json(self@),
    {
        let mut m: Vec<(String, Json)> = Vec::new();
        m.push(member_of(Field::ChannelId, text_json(&self.channel_id)));
        m.push(member_of(Field::ChanPoint, text_json(&self.chan_point)));
        m.push(member_of(Field::LastUpdate, native_json(self.last_update as u64)));
        m.push(member_of(Field::Node1Pub, text_json(&self.node1_pub)));
        m.push(member_of(Field::Node2Pub, text_json(&self.node2_pub)));
        m.push(member_of(Field::Capacity, quoted_json(self.capacity as u64)));
        m.push(member_of(Field::Node1Policy, optional_policy_to_json(&self.node1_policy)));
        m.push(member_of(Field::Node2Policy, optional_policy_to_json(&self.node2_policy)));
        assert(members_view(m@) =~= edge_json(self@)->Object_0);
        object_json(m)
    }
}

impl Address {
    /// The document of this address.
    pub fn to_json(&self) -> (j: Json)
        ensures
            j@ == address_json(self@),
    {
        let mut m: Vec<(String, Json)> = Vec::new();
        m.push(member_of(Field::Network, text_json(&self.network)));
        m.push(member_of(Field::Addr, Json::Text(self.addr.to_text())));
        assert(members_view(m@) =~= address_json(self@)->Object_0);
        object_json(m)
    }
}

impl Node {
    /// The document of this node.
    pub fn to_json(&self) -> (j: Json)
        ensures
            j@ == node_json(self@),
    {
        let mut items: Vec<Json> = Vec::new();
        let mut i: usize = 0;
        while i < self.addresses.len()
            invariant
                i <= self.addresses.len(),
                items_view(items@) =~= addresses_json(addresses_view(self.addresses@)).take(
                    i as int,
                ),
            decreases self.addresses.len() - i,
        {
            let ghost before = items_view(items@);
            let item = self.addresses[i].to_json();
            items.push(item);
            assert(items_view(items@) =~= before.push(item@));
            i = i + 1;
        }
        assert(addresses_json(addresses_view(self.addresses@)).take(i as int)
            =~= addresses_json(addresses_view(self.addresses@)));
        let mut m: Vec<(String, Json)> = Vec::new();
        m.push(member_of(Field::LastUpdate, native_json(self.last_update as u64)));
        m.push(member_of(Field::PubKey, text_json(&self.pub_key)));
        m.push(member_of(Field::Alias, text_json(&self.alias)));
        m.push(member_of(Field::Addresses, array_json(items)));
        m.push(member_of(Field::Color, text_json(&self.color)));
        assert(members_view(m@) =~= node_json(self@)->Object_0);
        object_json(m)
    }
}

impl Graph {
    /// The document of this graph.
    pub fn to_json(&self) -> (j: Json)
        ensures
            j@ == graph_json(self@),
    {
        let mut nodes: Vec<Json> = Vec::new();
        let mut i: usize = 0;
        while i < self.nodes.len()
            invariant
                i <= self.nodes.len(),
                items_view(nodes@) =~= nodes_json(nodes_view(self.nodes@)).take(i as int),
            decreases self.nodes.len() - i,
        {
            let ghost before = items_view(nodes@);
            let item = self.nodes[i].to_json();
            nodes.push(item);
            assert(items_view(nodes@) =~= before.push(item@));
            i = i + 1;
        }
        assert(nodes_json(nodes_view(self.nodes@)).take(i as int) =~= nodes_json(
            nodes_view(self.nodes@),
        ));
        let mut edges: Vec<Json> = Vec::new();
        let mut k: usize = 0;
        while k < self.edges.len()
            invariant
                k <= self.edges.len(),
                items_view(edges@) =~= edges_json(edges_view(self.edges@)).take(k as int),
            decreases self.edges.len() - k,
        {
            let ghost before = items_view(edges@);
            let item = self.edges[k].to_json();
            edges.push(item);
            assert(items_view(edges@) =~= before.push(item@));
            k = k + 1;
        }
        assert(edges_json(edges_view(self.edges@)).take(k as int) =~= edges_json(
            edges_view(self.edges@),
        ));
        let mut m: Vec<(String, Json)> = Vec::new();
        m.push(member_of(Field::Nodes, array_json(nodes)));
        m.push(member_of(Field::Edges, array_json(edges)));
        assert(members_view(m@) =~= graph_json(self@)->Object_0);
        object_json(m)
    }
}

} // verus!
