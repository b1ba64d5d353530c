//! The decoder: from a JSON document to a graph, or to the first fault found.
//!
//! Each `*_of` function says what a JSON value denotes; the executable
//! function beside it computes exactly that. Members of an object are looked
//! up by their exact key, members that the schema does not name are ignored,
//! and the members that it names are examined in the order in which the
//! schema lists them, so that the first fault in that order is the one
//! reported.

use crate::addr::{parse_socket_addr, socket_addr_text, SocketAddr};
use crate::error::{DecodeError, DecodeErrorView, Field, JsonKind, PathStep};
use crate::json::{
    find_member, items_view, lemma_array_view, lemma_object_view, member, members_view,
    parse_document, parsed_document, Json, JsonValue,
};
use crate::model::{
    addresses_view, edges_view, nodes_view, Address, AddressView, Edge, EdgeView, Graph,
    GraphView, Node, NodePolicy, NodeView,
};
use crate::text::{chars_of, parse_unsigned, unsigned_text};
use vstd::prelude::*;

verus! {

/// The JSON type of a value.
pub open spec fn kind_of(v: JsonValue) -> JsonKind {
    match v {
        JsonValue::Null => JsonKind::Null,
        JsonValue::Bool(_) => JsonKind::Bool,
        JsonValue::Number(_) => JsonKind::Number,
        JsonValue::Text(_) => JsonKind::Text,
        JsonValue::Array(_) => JsonKind::Array,
        JsonValue::Object(_) => JsonKind::Object,
    }
}

/// The fault of a value that is not what the schema asks for at its place.
pub open spec fn mismatch(v: JsonValue) -> DecodeErrorView {
    DecodeErrorView::TypeMismatch { path: Seq::empty(), found: kind_of(v) }
}

/// The fault of a text that does not parse as what its field holds.
pub open spec fn unparsable(text: Seq<char>) -> DecodeErrorView {
    DecodeErrorView::FieldParse { path: Seq::empty(), text }
}

/// The fault of an object that lacks the member `field`.
pub open spec fn missing(field: Field) -> DecodeErrorView {
    DecodeErrorView::MissingField { path: seq![PathStep::Key(field)] }
}

/// `r` is the outcome that `expected` describes.
pub open spec fn agrees<T>(r: Result<T, DecodeError>, expected: Result<T, DecodeErrorView>) -> bool {
    match r {
        Ok(x) => expected == Ok::<T, DecodeErrorView>(x),
        Err(e) => expected == Err::<T, DecodeErrorView>(e@),
    }
}

/// `r` is the outcome that `expected` describes, value for view.
pub open spec fn agrees_view<T: View>(
    r: Result<T, DecodeError>,
    expected: Result<T::V, DecodeErrorView>,
) -> bool {
    match r {
        Ok(x) => expected == Ok::<T::V, DecodeErrorView>(x@),
        Err(e) => expected == Err::<T::V, DecodeErrorView>(e@),
    }
}

/// A number written natively: a JSON number that is a non-negative integer of
/// at most `max`.
pub open spec fn native_unsigned(v: JsonValue, max: nat) -> Result<nat, DecodeErrorView> {
    match v {
        JsonValue::Number(Some(n)) => if n <= max {
            Ok(n as nat)
        } else {
            Err(mismatch(v))
        },
        _ => Err(mismatch(v)),
    }
}

/// A 16-bit number written natively.
pub open spec fn native_u16(v: JsonValue) -> Result<u16, DecodeErrorView> {
    match native_unsigned(v, 0xffff) {
        Ok(n) => Ok(n as u16),
        Err(e) => Err(e),
    }
}

/// A 32-bit number written natively.
pub open spec fn native_u32(v: JsonValue) -> Result<u32, DecodeErrorView> {
    match native_unsigned(v, 0xffff_ffff) {
        Ok(n) => Ok(n as u32),
        Err(e) => Err(e),
    }
}

/// A JSON boolean.
pub open spec fn bool_of(v: JsonValue) -> Result<bool, DecodeErrorView> {
    match v {
        JsonValue::Bool(b) => Ok(b),
        _ => Err(mismatch(v)),
    }
}

/// A JSON string, taken as it is.
pub open spec fn text_of(v: JsonValue) -> Result<Seq<char>, DecodeErrorView> {
    match v {
        JsonValue::Text(s) => Ok(s),
        _ => Err(mismatch(v)),
    }
}

/// A number written as a quoted string: the value must be a JSON string, and
/// its text must parse as a number of at most `max`.
pub open spec fn coerced_unsigned(v: JsonValue, max: nat) -> Result<nat, DecodeErrorView> {
    match v {
        JsonValue::Text(s) => match unsigned_text(s, max) {
            Some(n) => Ok(n),
            None => Err(unparsable(s)),
        },
        _ => Err(mismatch(v)),
    }
}

/// A 16-bit number written as a quoted string.
pub open spec fn coerced_u16(v: JsonValue) -> Result<u16, DecodeErrorView> {
    match coerced_unsigned(v, 0xffff) {
        Ok(n) => Ok(n as u16),
        Err(e) => Err(e),
    }
}

/// A 32-bit number written as a quoted string.
pub open spec fn coerced_u32(v: JsonValue) -> Result<u32, DecodeErrorView> {
    match coerced_unsigned(v, 0xffff_ffff) {
        Ok(n) => Ok(n as u32),
        Err(e) => Err(e),
    }
}

/// A 64-bit number written as a quoted string.
pub open spec fn coerced_u64(v: JsonValue) -> Result<u64, DecodeErrorView> {
    match coerced_unsigned(v, 0xffff_ffff_ffff_ffff) {
        Ok(n) => Ok(n as u64),
        Err(e) => Err(e),
    }
}

/// A socket address written as a string.
pub open spec fn socket_addr_of(v: JsonValue) -> Result<SocketAddr, DecodeErrorView> {
    match v {
        JsonValue::Text(s) => match socket_addr_text(s) {
            Some(a) => Ok(a),
            None => Err(unparsable(s)),
        },
        _ => Err(mismatch(v)),
    }
}

/// The member `field` of an object, decoded by `rule`. A fault of the member
/// is reported under its key.
pub open spec fn required<T>(
    members: Seq<(Seq<char>, JsonValue)>,
    field: Field,
    rule: spec_fn(JsonValue) -> Result<T, DecodeErrorView>,
) -> Result<T, DecodeErrorView> {
    match member(members, field.name()) {
        None => Err(missing(field)),
        Some(v) => match rule(v) {
            Ok(x) => Ok(x),
            Err(e) => Err(e.under(PathStep::Key(field))),
        },
    }
}

/// The values of a sequence of outcomes if all are good, else the fault of
/// the first that is not, reported under its position.
pub open spec fn collect<T>(outcomes: Seq<Result<T, DecodeErrorView>>) -> Result<
    Seq<T>,
    DecodeErrorView,
>
    decreases outcomes.len(),
{
    if outcomes.len() == 0 {
        Ok(Seq::empty())
    } else {
        match collect(outcomes.drop_last()) {
            Err(e) => Err(e),
            Ok(xs) => match outcomes.last() {
                Ok(x) => Ok(xs.push(x)),
                Err(e) => Err(e.under(PathStep::Index((outcomes.len() - 1) as usize))),
            },
        }
    }
}

/// A good outcome at position `k` adds its value to those before it.
pub proof fn lemma_collect_next<T>(outcomes: Seq<Result<T, DecodeErrorView>>, k: int)
    requires
        0 <= k < outcomes.len(),
        collect(outcomes.take(k)) is Ok,
        outcomes[k] is Ok,
    ensures
        collect(outcomes.take(k + 1)) == Ok::<Seq<T>, DecodeErrorView>(
            collect(outcomes.take(k))->Ok_0.push(outcomes[k]->Ok_0),
        ),
{
    assert(outcomes.take(k + 1).drop_last() =~= outcomes.take(k));
    assert(outcomes.take(k + 1).last() == outcomes[k]);
}

/// Once the outcome at position `k` is a fault and all before it are good,
/// the whole is that fault at `k`, whatever follows.
pub proof fn lemma_collect_fails<T>(outcomes: Seq<Result<T, DecodeErrorView>>, k: int)
    requires
        0 <= k < outcomes.len(),
        collect(outcomes.take(k)) is Ok,
        outcomes[k] is Err,
    ensures
        collect(outcomes) == Err::<Seq<T>, DecodeErrorView>(
            outcomes[k]->Err_0.under(PathStep::Index(k as usize)),
        ),
    decreases outcomes.len(),
{
    if k == outcomes.len() - 1 {
        assert(outcomes.drop_last() =~= outcomes.take(k));
    } else {
        assert(outcomes.drop_last().take(k) =~= outcomes.take(k));
        lemma_collect_fails(outcomes.drop_last(), k);
    }
}

/// What a value denotes as a forwarding policy.
pub open spec fn policy_of(v: JsonValue) -> Result<NodePolicy, DecodeErrorView> {
    match v {
        JsonValue::Object(m) => match required(m, Field::TimeLockDelta, |x| native_u16(x)) {
            Err(e) => Err(e),
            Ok(time_lock_delta) => match required(m, Field::MinHtlc, |x| coerced_u64(x)) {
                Err(e) => Err(e),
                Ok(min_htlc) => match required(m, Field::FeeBaseMsat, |x| coerced_u64(x)) {
                    Err(e) => Err(e),
                    Ok(fee_base_msat) => match required(
                        m,
                        Field::FeeRateMilliMsat,
                        |x| coerced_u64(x),
                    ) {
                        Err(e) => Err(e),
                        Ok(fee_rate_milli_msat) => match required(
                            m,
                            Field::Disabled,
                            |x| bool_of(x),
                        ) {
                            Err(e) => Err(e),
                            Ok(disabled) => match required(
                                m,
                                Field::MaxHtlcMsat,
                                |x| coerced_u64(x),
                            ) {
                                Err(e) => Err(e),
                                Ok(max_htlc_msat) => match required(
                                    m,
                                    Field::LastUpdate,
                                    |x| native_u32(x),
                                ) {
                                    Err(e) => Err(e),
                                    Ok(last_update) => Ok(
                                        NodePolicy {
                                            time_lock_delta,
                                            min_htlc,
                                            fee_base_msat,
                                            fee_rate_milli_msat,
                                            disabled,
                                            max_htlc_msat,
                                            last_update,
                                        },
                                    ),
                                },
                            },
                        },
                    },
                },
            },
        },
        _ => Err(mismatch(v)),
    }
}

/// The policy that the member `field` of an edge holds, if any: a member that
/// is absent and one that is `null` both stand for no policy.
pub open spec fn optional_policy(members: Seq<(Seq<char>, JsonValue)>, field: Field) -> Result<
    Option<NodePolicy>,
    DecodeErrorView,
> {
    match member(members, field.name()) {
        None => Ok(None),
        Some(JsonValue::Null) => Ok(None),
        Some(v) => match policy_of(v) {
            Ok(p) => Ok(Some(p)),
            Err(e) => Err(e.under(PathStep::Key(field))),
        },
    }
}

/// What a value denotes as an edge.
pub open spec fn edge_of(v: JsonValue) -> Result<EdgeView, DecodeErrorView> {
    match v {
        JsonValue::Object(m) => match required(m, Field::ChannelId, |x| text_of(x)) {
            Err(e) => Err(e),
            Ok(channel_id) => match required(m, Field::ChanPoint, |x| text_of(x)) {
                Err(e) => Err(e),
                Ok(chan_point) => match required(m, Field::LastUpdate, |x| native_u32(x)) {
                    Err(e) => Err(e),
                    Ok(last_update) => match required(m, Field::Node1Pub, |x| text_of(x)) {
                        Err(e) => Err(e),
                        Ok(node1_pub) => match required(m, Field::Node2Pub, |x| text_of(x)) {
                            Err(e) => Err(e),
                            Ok(node2_pub) => match required(
                                m,
                                Field::Capacity,
                                |x| coerced_u32(x),
                            ) {
                                Err(e) => Err(e),
                                Ok(capacity) => match optional_policy(m, Field::Node1Policy) {
                                    Err(e) => Err(e),
                                    Ok(node1_policy) => match optional_policy(
                                        m,
                                        Field::Node2Policy,
                                    ) {
                                        Err(e) => Err(e),
                                        Ok(node2_policy) => Ok(
                                            EdgeView {
                                                channel_id,
                                                chan_point,
                                                last_update,
                                                node1_pub,
                                                node2_pub,
                                                capacity,
                                                node1_policy,
                                                node2_policy,
                                            },
                                        ),
                                    },
                                },
                            },
                        },
                    },
                },
            },
        },
        _ => Err(mismatch(v)),
    }
}

/// What a value denotes as a network address.
pub open spec fn address_of(v: JsonValue) -> Result<AddressView, DecodeErrorView> {
    match v {
        JsonValue::Object(m) => match required(m, Field::Network, |x| text_of(x)) {
            Err(e) => Err(e),
            Ok(network) => match required(m, Field::Addr, |x| socket_addr_of(x)) {
                Err(e) => Err(e),
                Ok(addr) => Ok(AddressView { network, addr }),
            },
        },
        _ => Err(mismatch(v)),
    }
}

/// What each item of an array denotes as an address, in order.
pub open spec fn address_outcomes(items: Seq<JsonValue>) -> Seq<Result<AddressView, DecodeErrorView>> {
    Seq::new(items.len(), |i: int| address_of(items[i]))
}

/// What a value denotes as a list of addresses: it must be an array, and
/// its items are decoded in order.
pub open spec fn addresses_of(v: JsonValue) -> Result<Seq<AddressView>, DecodeErrorView> {
    match v {
        JsonValue::Array(items) => collect(address_outcomes(items)),
        _ => Err(mismatch(v)),
    }
}

/// What a value denotes as a node.
pub open spec fn node_of(v: JsonValue) -> Result<NodeView, DecodeErrorView> {
    match v {
        JsonValue::Object(m) => match required(m, Field::LastUpdate, |x| native_u32(x)) {
            Err(e) => Err(e),
            Ok(last_update) => match required(m, Field::PubKey, |x| text_of(x)) {
                Err(e) => Err(e),
                Ok(pub_key) => match required(m, Field::Alias, |x| text_of(x)) {
                    Err(e) => Err(e),
                    Ok(alias) => match required(m, Field::Addresses, |x| addresses_of(x)) {
                        Err(e) => Err(e),
                        Ok(addresses) => match required(m, Field::Color, |x| text_of(x)) {
                            Err(e) => Err(e),
                            Ok(color) => Ok(
                                NodeView { last_update, pub_key, alias, addresses, color },
                            ),
                        },
                    },
                },
            },
        },
        _ => Err(mismatch(v)),
    }
}

/// What each item of an array denotes as a node, in order.
pub open spec fn node_outcomes(items: Seq<JsonValue>) -> Seq<Result<NodeView, DecodeErrorView>> {
    Seq::new(items.len(), |i: int| node_of(items[i]))
}

/// What a value denotes as a list of nodes.
pub open spec fn nodes_of(v: JsonValue) -> Result<Seq<NodeView>, DecodeErrorView> {
    match v {
        JsonValue::Array(items) => collect(node_outcomes(items)),
        _ => Err(mismatch(v)),
    }
}

/// What each item of an array denotes as an edge, in order.
pub open spec fn edge_outcomes(items: Seq<JsonValue>) -> Seq<Result<EdgeView, DecodeErrorView>> {
    Seq::new(items.len(), |i: int| edge_of(items[i]))
}

/// What a value denotes as a list of edges.
pub open spec fn edges_of(v: JsonValue) -> Result<Seq<EdgeView>, DecodeErrorView> {
    match v {
        JsonValue::Array(items) => collect(edge_outcomes(items)),
        _ => Err(mismatch(v)),
    }
}

/// What a document denotes as a graph. The root must be an object with the
/// members `nodes` and `edges`; a root that is no object lacks `nodes`.
pub open spec fn graph_of(doc: JsonValue) -> Result<GraphView, DecodeErrorView> {
    match doc {
        JsonValue::Object(m) => match required(m, Field::Nodes, |x| nodes_of(x)) {
            Err(e) => Err(e),
            Ok(nodes) => match required(m, Field::Edges, |x| edges_of(x)) {
                Err(e) => Err(e),
                Ok(edges) => Ok(GraphView { nodes, edges }),
            },
        },
        _ => Err(missing(Field::Nodes)),
    }
}

/// What a text denotes as a graph: a text that is not well-formed JSON is a
/// syntax error at the place that the parser reports, any other denotes what
/// its document does.
pub open spec fn graph_of_text(text: Seq<char>) -> Result<GraphView, DecodeErrorView> {
    match parsed_document(text) {
        Ok(doc) => graph_of(doc),
        Err(at) => Err(DecodeErrorView::Syntax { line: at.line, column: at.column }),
    }
}

/// The JSON type of a value.
pub fn json_kind(v: &Json) -> (k: JsonKind)
    ensures
        k == kind_of(v@),
{
    match v {
        Json::Null => JsonKind::Null,
        Json::Bool(_) => JsonKind::Bool,
        Json::Number(_) => JsonKind::Number,
        Json::Text(_) => JsonKind::Text,
        Json::Array(items) => {
            proof {
                lemma_array_view(*items);
            }
            JsonKind::Array
        },
        Json::Object(members) => {
            proof {
                lemma_object_view(*members);
            }
            JsonKind::Object
        },
    }
}

fn mismatch_at(v: &Json) -> (e: DecodeError)
    ensures
        e@ == mismatch(v@),
{
    DecodeError::TypeMismatch { path: Vec::new(), found: json_kind(v) }
}

fn unparsable_text(text: &String) -> (e: DecodeError)
    ensures
        e@ == unparsable(text@),
{
    DecodeError::FieldParse { path: Vec::new(), text: text.clone() }
}

fn decode_native(v: &Json, max: u64) -> (r: Result<u64, DecodeError>)
    ensures
        r matches Ok(n) ==> native_unsigned(v@, max as nat) == Ok::<nat, DecodeErrorView>(
            n as nat,
        ),
        r matches Err(e) ==> native_unsigned(v@, max as nat) == Err::<nat, DecodeErrorView>(e@),
{
    match v {
        Json::Number(Some(n)) => {
            if *n <= max {
                Ok(*n)
            } else {
                Err(mismatch_at(v))
            }
        },
        _ => Err(mismatch_at(v)),
    }
}

/// Decodes a 16-bit number written natively.
pub fn decode_u16(v: &Json) -> (r: Result<u16, DecodeError>)
    ensures
        agrees(r, native_u16(v@)),
{
    match decode_native(v, 0xffff) {
        Ok(n) => Ok(n as u16),
        Err(e) => Err(e),
    }
}

/// Decodes a 32-bit number written natively.
pub fn decode_u32(v: &Json) -> (r: Result<u32, DecodeError>)
    ensures
        agrees(r, native_u32(v@)),
{
    match decode_native(v, 0xffff_ffff) {
        Ok(n) => Ok(n as u32),
        Err(e) => Err(e),
    }
}

/// Decodes a boolean.
pub fn decode_bool(v: &Json) -> (r: Result<bool, DecodeError>)
    ensures
        agrees(r, bool_of(v@)),
{
    match v {
        Json::Bool(b) => Ok(*b),
        _ => Err(mismatch_at(v)),
    }
}

/// Decodes a string.
pub fn decode_text(v: &Json) -> (r: Result<String, DecodeError>)
    ensures
        agrees_view(r, text_of(v@)),
{
    match v {
        Json::Text(s) => Ok(s.clone()),
        _ => Err(mismatch_at(v)),
    }
}

fn coerce_upto(v: &Json, max: u64) -> (r: Result<u64, DecodeError>)
    ensures
        r matches Ok(n) ==> coerced_unsigned(v@, max as nat) == Ok::<nat, DecodeErrorView>(
            n as nat,
        ),
        r matches Err(e) ==> coerced_unsigned(v@, max as nat) == Err::<nat, DecodeErrorView>(e@),
{
    match v {
        Json::Text(s) => match parse_unsigned(s.as_str(), max) {
            Some(n) => Ok(n),
            None => Err(unparsable_text(s)),
        },
        _ => Err(mismatch_at(v)),
    }
}

/// Decodes a 16-bit number written as a quoted string.
pub fn coerce_u16(v: &Json) -> (r: Result<u16, DecodeError>)
    ensures
        agrees(r, coerced_u16(v@)),
{
    match coerce_upto(v, 0xffff) {
        Ok(n) => Ok(n as u16),
        Err(e) => Err(e),
    }
}

/// Decodes a 32-bit number written as a quoted string.
pub fn coerce_u32(v: &Json) -> (r: Result<u32, DecodeError>)
    ensures
        agrees(r, coerced_u32(v@)),
{
    match coerce_upto(v, 0xffff_ffff) {
        Ok(n) => Ok(n as u32),
        Err(e) => Err(e),
    }
}

/// Decodes a 64-bit number written as a quoted string.
pub fn coerce_u64(v: &Json) -> (r: Result<u64, DecodeError>)
    ensures
        agrees(r, coerced_u64(v@)),
{
    coerce_upto(v, 0xffff_ffff_ffff_ffff)
}

/// Decodes a socket address written as a string.
pub fn decode_socket_addr(v: &Json) -> (r: Result<SocketAddr, DecodeError>)
    ensures
        agrees(r, socket_addr_of(v@)),
{
    match v {
        Json::Text(s) => {
            let chars = chars_of(s.as_str());
            match parse_socket_addr(&chars) {
                Some(a) => Ok(a),
                None => Err(unparsable_text(s)),
            }
        },
        _ => Err(mismatch_at(v)),
    }
}

fn required_member<'a>(members: &'a Vec<(String, Json)>, field: Field) -> (r: Result<
    &'a Json,
    DecodeError,
>)
    ensures
        r matches Ok(v) ==> member(members_view(members@), field.name()) == Some(v@),
        r matches Err(e) ==> member(members_view(members@), field.name()) is None && e@
            == missing(field),
{
    match find_member(members, field.key()) {
        Some(v) => Ok(v),
        None => {
            let mut path: Vec<PathStep> = Vec::new();
            path.push(PathStep::Key(field));
            assert(path@ =~= seq![PathStep::Key(field)]);
            Err(DecodeError::MissingField { path })
        },
    }
}

fn required_u16(members: &Vec<(String, Json)>, field: Field) -> (r: Result<u16, DecodeError>)
    ensures
        agrees(r, required(members_view(members@), field, |x| native_u16(x))),
{
    match required_member(members, field) {
        Err(e) => Err(e),
        Ok(v) => match decode_u16(v) {
            Ok(x) => Ok(x),
            Err(e) => Err(e.under(PathStep::Key(field))),
        },
    }
}

fn required_u32(members: &Vec<(String, Json)>, field: Field) -> (r: Result<u32, DecodeError>)
    ensures
        agrees(r, required(members_view(members@), field, |x| native_u32(x))),
{
    match required_member(members, field) {
        Err(e) => Err(e),
        Ok(v) => match decode_u32(v) {
            Ok(x) => Ok(x),
            Err(e) => Err(e.under(PathStep::Key(field))),
        },
    }
}

fn required_bool(members: &Vec<(String, Json)>, field: Field) -> (r: Result<bool, DecodeError>)
    ensures
        agrees(r, required(members_view(members@), field, |x| bool_of(x))),
{
    match required_member(members, field) {
        Err(e) => Err(e),
        Ok(v) => match decode_bool(v) {
            Ok(x) => Ok(x),
            Err(e) => Err(e.under(PathStep::Key(field))),
        },
    }
}

fn required_text(members: &Vec<(String, Json)>, field: Field) -> (r: Result<String, DecodeError>)
    ensures
        agrees_view(r, required(members_view(members@), field, |x| text_of(x))),
{
    match required_member(members, field) {
        Err(e) => Err(e),
        Ok(v) => match decode_text(v) {
            Ok(x) => Ok(x),
            Err(e) => Err(e.under(PathStep::Key(field))),
        },
    }
}

fn required_coerced_u32(members: &Vec<(String, Json)>, field: Field) -> (r: Result<
    u32,
    DecodeError,
>)
    ensures
        agrees(r, required(members_view(members@), field, |x| coerced_u32(x))),
{
    match required_member(members, field) {
        Err(e) => Err(e),
        Ok(v) => match coerce_u32(v) {
            Ok(x) => Ok(x),
            Err(e) => Err(e.under(PathStep::Key(field))),
        },
    }
}

fn required_coerced_u64(members: &Vec<(String, Json)>, field: Field) -> (r: Result<
    u64,
    DecodeError,
>)
    ensures
        agrees(r, required(members_view(members@), field, |x| coerced_u64(x))),
{
    match required_member(members, field) {
        Err(e) => Err(e),
        Ok(v) => match coerce_u64(v) {
            Ok(x) => Ok(x),
            Err(e) => Err(e.under(PathStep::Key(field))),
        },
    }
}

/// Decodes a forwarding policy.
pub fn decode_policy(v: &Json) -> (r: Result<NodePolicy, DecodeError>)
    ensures
        agrees(r, policy_of(v@)),
{
    match v {
        Json::Object(members) => {
            proof {
                lemma_object_view(*members);
            }
            let time_lock_delta = match required_u16(members, Field::TimeLockDelta) {
                Ok(x) => x,
                Err(e) => { return Err(e); },
            };
            let min_htlc = match required_coerced_u64(members, Field::MinHtlc) {
                Ok(x) => x,
                Err(e) => { return Err(e); },
            };
            let fee_base_msat = match required_coerced_u64(members, Field::FeeBaseMsat) {
                Ok(x) => x,
                Err(e) => { return Err(e); },
            };
            let fee_rate_milli_msat = match required_coerced_u64(
                members,
                Field::FeeRateMilliMsat,
            ) {
                Ok(x) => x,
                Err(e) => { return Err(e); },
            };
            let disabled = match required_bool(members, Field::Disabled) {
                Ok(x) => x,
                Err(e) => { return Err(e); },
            };
            let max_htlc_msat = match required_coerced_u64(members, Field::MaxHtlcMsat) {
                Ok(x) => x,
                Err(e) => { return Err(e); },
            };
            let last_update = match required_u32(members, Field::LastUpdate) {
                Ok(x) => x,
                Err(e) => { return Err(e); },
            };
            Ok(
                NodePolicy {
                    time_lock_delta,
                    min_htlc,
                    fee_base_msat,
                    fee_rate_milli_msat,
                    disabled,
                    max_htlc_msat,
                    last_update,
                },
            )
        },
        _ => Err(mismatch_at(v)),
    }
}

fn decode_optional_policy(members: &Vec<(String, Json)>, field: Field) -> (r: Result<
    Option<NodePolicy>,
    DecodeError,
>)
    ensures
        agrees(r, optional_policy(members_view(members@), field)),
{
    match find_member(members, field.key()) {
        None => Ok(None),
        Some(Json::Null) => Ok(None),
        Some(v) => match decode_policy(v) {
            Ok(p) => Ok(Some(p)),
            Err(e) => Err(e.under(PathStep::Key(field))),
        },
    }
}

/// Decodes an edge.
pub fn decode_edge(v: &Json) -> (r: Result<Edge, DecodeError>)
    ensures
        agrees_view(r, edge_of(v@)),
{
    match v {
        Json::Object(members) => {
            proof {
                lemma_object_view(*members);
            }
            let channel_id = match required_text(members, Field::ChannelId) {
                Ok(x) => x,
                Err(e) => { return Err(e); },
            };
            let chan_point = match required_text(members, Field::ChanPoint) {
                Ok(x) => x,
                Err(e) => { return Err(e); },
            };
            let last_update = match required_u32(members, Field::LastUpdate) {
                Ok(x) => x,
                Err(e) => { return Err(e); },
            };
            let node1_pub = match required_text(members, Field::Node1Pub) {
                Ok(x) => x,
                Err(e) => { return Err(e); },
            };
            let node2_pub = match required_text(members, Field::Node2Pub) {
                Ok(x) => x,
                Err(e) => { return Err(e); },
            };
            let capacity = match required_coerced_u32(members, Field::Capacity) {
                Ok(x) => x,
                Err(e) => { return Err(e); },
            };
            let node1_policy = match decode_optional_policy(members, Field::Node1Policy) {
                Ok(x) => x,
                Err(e) => { return Err(e); },
            };
            let node2_policy = match decode_optional_policy(members, Field::Node2Policy) {
                Ok(x) => x,
                Err(e) => { return Err(e); },
            };
            Ok(
                Edge {
                    channel_id,
                    chan_point,
                    last_update,
                    node1_pub,
                    node2_pub,
                    capacity,
                    node1_policy,
                    node2_policy,
                },
            )
        },
        _ => Err(mismatch_at(v)),
    }
}

/// Decodes a network address.
pub fn decode_address(v: &Json) -> (r: Result<Address, DecodeError>)
    ensures
        agrees_view(r, address_of(v@)),
{
    match v {
        Json::Object(members) => {
            proof {
                lemma_object_view(*members);
            }
            let network = match required_text(members, Field::Network) {
                Ok(x) => x,
                Err(e) => { return Err(e); },
            };
            let addr = match required_member(members, Field::Addr) {
                Err(e) => { return Err(e); },
                Ok(a) => match decode_socket_addr(a) {
                    Ok(x) => x,
                    Err(e) => { return Err(e.under(PathStep::Key(Field::Addr))); },
                },
            };
            Ok(Address { network, addr })
        },
        _ => Err(mismatch_at(v)),
    }
}

/// Decodes a list of addresses.
pub fn decode_addresses(v: &Json) -> (r: Result<Vec<Address>, DecodeError>)
    ensures
        r matches Ok(xs) ==> addresses_of(v@) == Ok::<Seq<AddressView>, DecodeErrorView>(
            addresses_view(xs@),
        ),
        r matches Err(e) ==> addresses_of(v@) == Err::<Seq<AddressView>, DecodeErrorView>(e@),
{
    match v {
        Json::Array(items) => {
            proof {
                lemma_array_view(*items);
            }
            let ghost outcomes = address_outcomes(items_view(items@));
            let mut out: Vec<Address> = Vec::new();
            let mut i: usize = 0;
            assert(outcomes.take(0).len() == 0);
            assert(addresses_view(out@) =~= Seq::empty());
            while i < items.len()
                invariant
                    i <= items.len(),
                    v@ == JsonValue::Array(items_view(items@)),
                    outcomes == address_outcomes(items_view(items@)),
                    collect(outcomes.take(i as int)) == Ok::<Seq<AddressView>, DecodeErrorView>(
                        addresses_view(out@),
                    ),
                decreases items.len() - i,
            {
                assert(outcomes[i as int] == address_of(items[i as int]@));
                let ghost before = addresses_view(out@);
                match decode_address(&items[i]) {
                    Ok(x) => {
                        out.push(x);
                        proof {
                            lemma_collect_next(outcomes, i as int);
                            assert(addresses_view(out@) =~= before.push(x@));
                        }
                    },
                    Err(e) => {
                        proof {
                            lemma_collect_fails(outcomes, i as int);
                        }
                        return Err(e.under(PathStep::Index(i)));
                    },
                }
                i = i + 1;
            }
            assert(outcomes.take(i as int) =~= outcomes);
            Ok(out)
        },
        _ => Err(mismatch_at(v)),
    }
}

/// Decodes a node.
pub fn decode_node(v: &Json) -> (r: Result<Node, DecodeError>)
    ensures
        agrees_view(r, node_of(v@)),
{
    match v {
        Json::Object(members) => {
            proof {
                lemma_object_view(*members);
            }
            let last_update = match required_u32(members, Field::LastUpdate) {
                Ok(x) => x,
                Err(e) => { return Err(e); },
            };
            let pub_key = match required_text(members, Field::PubKey) {
                Ok(x) => x,
                Err(e) => { return Err(e); },
            };
            let alias = match required_text(members, Field::Alias) {
                Ok(x) => x,
                Err(e) => { return Err(e); },
            };
            let addresses = match required_member(members, Field::Addresses) {
                Err(e) => { return Err(e); },
                Ok(a) => match decode_addresses(a) {
                    Ok(x) => x,
                    Err(e) => { return Err(e.under(PathStep::Key(Field::Addresses))); },
                },
            };
            let color = match required_text(members, Field::Color) {
                Ok(x) => x,
                Err(e) => { return Err(e); },
            };
            Ok(Node { last_update, pub_key, alias, addresses, color })
        },
        _ => Err(mismatch_at(v)),
    }
}

/// Decodes a list of nodes.
pub fn decode_nodes(v: &Json) -> (r: Result<Vec<Node>, DecodeError>)
    ensures
        r matches Ok(xs) ==> nodes_of(v@) == Ok::<Seq<NodeView>, DecodeErrorView>(
            nodes_view(xs@),
        ),
        r matches Err(e) ==> nodes_of(v@) == Err::<Seq<NodeView>, DecodeErrorView>(e@),
{
    match v {
        Json::Array(items) => {
            proof {
                lemma_array_view(*items);
            }
            let ghost outcomes = node_outcomes(items_view(items@));
            let mut out: Vec<Node> = Vec::new();
            let mut i: usize = 0;
            assert(outcomes.take(0).len() == 0);
            assert(nodes_view(out@) =~= Seq::empty());
            while i < items.len()
                invariant
                    i <= items.len(),
                    v@ == JsonValue::Array(items_view(items@)),
                    outcomes == node_outcomes(items_view(items@)),
                    collect(outcomes.take(i as int)) == Ok::<Seq<NodeView>, DecodeErrorView>(
                        nodes_view(out@),
                    ),
                decreases items.len() - i,
            {
                assert(outcomes[i as int] == node_of(items[i as int]@));
                let ghost before = nodes_view(out@);
                match decode_node(&items[i]) {
                    Ok(x) => {
                        out.push(x);
                        proof {
                            lemma_collect_next(outcomes, i as int);
                            assert(nodes_view(out@) =~= before.push(x@));
                        }
                    },
                    Err(e) => {
                        proof {
                            lemma_collect_fails(outcomes, i as int);
                        }
                        return Err(e.under(PathStep::Index(i)));
                    },
                }
                i = i + 1;
            }
            assert(outcomes.take(i as int) =~= outcomes);
            Ok(out)
        },
        _ => Err(mismatch_at(v)),
    }
}

/// Decodes a list of edges.
pub fn decode_edges(v: &Json) -> (r: Result<Vec<Edge>, DecodeError>)
    ensures
        r matches Ok(xs) ==> edges_of(v@) == Ok::<Seq<EdgeView>, DecodeErrorView>(
            edges_view(xs@),
        ),
        r matches Err(e) ==> edges_of(v@) == Err::<Seq<EdgeView>, DecodeErrorView>(e@),
{
    match v {
        Json::Array(items) => {
            proof {
                lemma_array_view(*items);
            }
            let ghost outcomes = edge_outcomes(items_view(items@));
            let mut out: Vec<Edge> = Vec::new();
            let mut i: usize = 0;
            assert(outcomes.take(0).len() == 0);
            assert(edges_view(out@) =~= Seq::empty());
            while i < items.len()
                invariant
                    i <= items.len(),
                    v@ == JsonValue::Array(items_view(items@)),
                    outcomes == edge_outcomes(items_view(items@)),
                    collect(outcomes.take(i as int)) == Ok::<Seq<EdgeView>, DecodeErrorView>(
                        edges_view(out@),
                    ),
                decreases items.len() - i,
            {
                assert(outcomes[i as int] == edge_of(items[i as int]@));
                let ghost before = edges_view(out@);
                match decode_edge(&items[i]) {
                    Ok(x) => {
                        out.push(x);
                        proof {
                            lemma_collect_next(outcomes, i as int);
                            assert(edges_view(out@) =~= before.push(x@));
                        }
                    },
                    Err(e) => {
                        proof {
                            lemma_collect_fails(outcomes, i as int);
                        }
                        return Err(e.under(PathStep::Index(i)));
                    },
                }
                i = i + 1;
            }
            assert(outcomes.take(i as int) =~= outcomes);
            Ok(out)
        },
        _ => Err(mismatch_at(v)),
    }
}

/// Decodes a document: the nodes first, then the edges, each list in order,
/// and nothing once a fault is found.
pub fn decode_graph(doc: &Json) -> (r: Result<Graph, DecodeError>)
    ensures
        agrees_view(r, graph_of(doc@)),
{
    match doc {
        Json::Object(members) => {
            proof {
                lemma_object_view(*members);
            }
            let nodes = match required_member(members, Field::Nodes) {
                Err(e) => { return Err(e); },
                Ok(a) => match decode_nodes(a) {
                    Ok(x) => x,
                    Err(e) => { return Err(e.under(PathStep::Key(Field::Nodes))); },
                },
            };
            let edges = match required_member(members, Field::Edges) {
                Err(e) => { return Err(e); },
                Ok(a) => match decode_edges(a) {
                    Ok(x) => x,
                    Err(e) => { return Err(e.under(PathStep::Key(Field::Edges))); },
                },
            };
            Ok(Graph { nodes, edges })
        },
        _ => {
            let mut path: Vec<PathStep> = Vec::new();
            path.push(PathStep::Key(Field::Nodes));
            assert(path@ =~= seq![PathStep::Key(Field::Nodes)]);
            Err(DecodeError::MissingField { path })
        },
    }
}

/// Decodes a graph from JSON text.
pub fn from_json_str(json_str: &str) -> (r: Result<Graph, DecodeError>)
    ensures
        agrees_view(r, graph_of_text(json_str@)),
{
    match parse_document(json_str) {
        Ok(doc) => decode_graph(&doc),
        Err(at) => Err(DecodeError::Syntax { line: at.line, column: at.column }),
    }
}

} // verus!
