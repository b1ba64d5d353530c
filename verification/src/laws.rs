//! What holds of the decoder on every document.

use crate::decode::{
    coerced_unsigned, collect, edge_of, edge_outcomes, graph_of, lemma_collect_fails, node_of,
    node_outcomes, nodes_of, optional_policy, policy_of, unparsable,
};
use crate::encode::{
    edges_json, graph_json, lemma_collect_values, lemma_edge_round_trip, lemma_member_at,
    lemma_node_round_trip, lemma_quoted_round_trip, nodes_json,
};
use crate::error::{DecodeErrorView, Field, JsonKind, PathStep};
use crate::json::{member, JsonValue};
use crate::model::{EdgeView, GraphView, NodePolicy, NodeView};
use crate::text::{decimal_text, decimal_upto, is_digit};
use vstd::prelude::*;

verus! {

/// Where a field is written as a quoted string, a native number in its place
/// is a type mismatch, whatever the number.
pub proof fn law_native_number_is_mismatch(n: Option<u64>, max: nat)
    ensures
        coerced_unsigned(JsonValue::Number(n), max) == Err::<nat, DecodeErrorView>(
            DecodeErrorView::TypeMismatch { path: Seq::empty(), found: JsonKind::Number },
        ),
{
}

/// Where a field is written as a quoted string, a text with a character that
/// is neither a digit nor a plus sign in front fails to parse, and so does
/// the empty text; the fault carries the text.
pub proof fn law_non_numeric_text_fails(s: Seq<char>, max: nat, i: int)
    requires
        s.len() == 0 || (0 <= i < s.len() && !is_digit(s[i]) && !(i == 0 && s[0] == '+')),
    ensures
        coerced_unsigned(JsonValue::Text(s), max) == Err::<nat, DecodeErrorView>(
            DecodeErrorView::FieldParse { path: Seq::empty(), text: s },
        ),
{
    if s.len() > 0 {
        if s[0] == '+' {
            assert(s.skip(1)[i - 1] == s[i]);
        }
    }
}

/// Where a field is written as a quoted string, a number that does not fit
/// the field fails to parse.
pub proof fn law_out_of_range_text_fails(s: Seq<char>, max: nat)
    requires
        decimal_upto(s, max) is None,
        s.len() == 0 || s[0] != '+',
    ensures
        coerced_unsigned(JsonValue::Text(s), max) == Err::<nat, DecodeErrorView>(unparsable(s)),
{
}

/// A policy that is absent and one that is `null` are the same: no policy.
pub proof fn law_absent_policy_is_null(members: Seq<(Seq<char>, JsonValue)>, field: Field)
    requires
        member(members, field.name()) is None || member(members, field.name()) == Some(
            JsonValue::Null,
        ),
    ensures
        optional_policy(members, field) == Ok::<Option<NodePolicy>, DecodeErrorView>(
            None,
        ),
{
}

/// A policy that is present and not `null` is decoded as a policy, and a
/// fault in it is reported under the member's key.
pub proof fn law_present_policy_is_decoded(
    members: Seq<(Seq<char>, JsonValue)>,
    field: Field,
    v: JsonValue,
)
    requires
        member(members, field.name()) == Some(v),
        v != JsonValue::Null,
    ensures
        optional_policy(members, field) == match policy_of(v) {
            Ok(p) => Ok::<Option<NodePolicy>, DecodeErrorView>(Some(p)),
            Err(e) => Err(e.under(PathStep::Key(field))),
        },
{
}

/// Two edges that differ only in that one lacks a policy where the other has
/// `null` decode alike.
pub proof fn law_edges_with_absent_and_null_policy_agree(
    m1: Seq<(Seq<char>, JsonValue)>,
    m2: Seq<(Seq<char>, JsonValue)>,
    field: Field,
)
    requires
        field == Field::Node1Policy || field == Field::Node2Policy,
        forall|f: Field| f != field ==> member(m1, #[trigger] f.name()) == member(m2, f.name()),
        member(m1, field.name()) is None,
        member(m2, field.name()) == Some(JsonValue::Null),
    ensures
        edge_of(JsonValue::Object(m1)) == edge_of(JsonValue::Object(m2)),
{
    assert(member(m1, Field::ChannelId.name()) == member(m2, Field::ChannelId.name()));
    assert(member(m1, Field::ChanPoint.name()) == member(m2, Field::ChanPoint.name()));
    assert(member(m1, Field::LastUpdate.name()) == member(m2, Field::LastUpdate.name()));
    assert(member(m1, Field::Node1Pub.name()) == member(m2, Field::Node1Pub.name()));
    assert(member(m1, Field::Node2Pub.name()) == member(m2, Field::Node2Pub.name()));
    assert(member(m1, Field::Capacity.name()) == member(m2, Field::Capacity.name()));
    if field == Field::Node1Policy {
        assert(member(m1, Field::Node2Policy.name()) == member(m2, Field::Node2Policy.name()));
    } else {
        assert(member(m1, Field::Node1Policy.name()) == member(m2, Field::Node1Policy.name()));
    }
}

/// A list that decodes has one value for each item, at the item's place.
pub proof fn law_collect_keeps_order<T>(outcomes: Seq<Result<T, DecodeErrorView>>)
    ensures
        collect(outcomes) matches Ok(xs) ==> xs.len() == outcomes.len() && forall|i: int|
            0 <= i < xs.len() ==> outcomes[i] == Ok::<T, DecodeErrorView>(#[trigger] xs[i]),
    decreases outcomes.len(),
{
    if outcomes.len() > 0 {
        law_collect_keeps_order(outcomes.drop_last());
    }
}

/// A list with a fault does not decode; the fault reported is the first.
pub proof fn law_collect_reports_first_fault<T>(
    outcomes: Seq<Result<T, DecodeErrorView>>,
    k: int,
)
    requires
        0 <= k < outcomes.len(),
        outcomes[k] is Err,
        forall|j: int| 0 <= j < k ==> (#[trigger] outcomes[j]) is Ok,
    ensures
        collect(outcomes) == Err::<Seq<T>, DecodeErrorView>(
            outcomes[k]->Err_0.under(PathStep::Index(k as usize)),
        ),
{
    lemma_collect_all_good(outcomes.take(k));
    lemma_collect_fails(outcomes, k);
}

/// A list without a fault decodes.
pub proof fn lemma_collect_all_good<T>(outcomes: Seq<Result<T, DecodeErrorView>>)
    requires
        forall|j: int| 0 <= j < outcomes.len() ==> (#[trigger] outcomes[j]) is Ok,
    ensures
        collect(outcomes) is Ok,
    decreases outcomes.len(),
{
    if outcomes.len() > 0 {
        lemma_collect_all_good(outcomes.drop_last());
    }
}

/// The nodes of a decoded graph are those of the document, one for each item
/// of `nodes` and in the same order, and so are the edges.
pub proof fn law_graph_keeps_order(
    members: Seq<(Seq<char>, JsonValue)>,
    nodes: Seq<JsonValue>,
    edges: Seq<JsonValue>,
)
    requires
        member(members, Field::Nodes.name()) == Some(JsonValue::Array(nodes)),
        member(members, Field::Edges.name()) == Some(JsonValue::Array(edges)),
    ensures
        graph_of(JsonValue::Object(members)) matches Ok(g) ==> {
            &&& g.nodes.len() == nodes.len()
            &&& g.edges.len() == edges.len()
            &&& forall|i: int|
                0 <= i < nodes.len() ==> node_of(nodes[i]) == Ok::<NodeView, DecodeErrorView>(
                    #[trigger] g.nodes[i],
                )
            &&& forall|i: int|
                0 <= i < edges.len() ==> edge_of(edges[i]) == Ok::<EdgeView, DecodeErrorView>(
                    #[trigger] g.edges[i],
                )
        },
{
    law_collect_keeps_order(node_outcomes(nodes));
    law_collect_keeps_order(edge_outcomes(edges));
}

/// A graph whose nodes decode and whose edge at position `k` is the first
/// that does not is refused with the fault of that edge, at
/// `edges[k]`, whatever the edges after it hold.
pub proof fn law_graph_reports_first_faulty_edge(
    members: Seq<(Seq<char>, JsonValue)>,
    nodes: JsonValue,
    edges: Seq<JsonValue>,
    k: int,
)
    requires
        member(members, Field::Nodes.name()) == Some(nodes),
        nodes_of(nodes) is Ok,
        member(members, Field::Edges.name()) == Some(JsonValue::Array(edges)),
        0 <= k < edges.len(),
        edge_of(edges[k]) is Err,
        forall|j: int| 0 <= j < k ==> edge_of(#[trigger] edges[j]) is Ok,
    ensures
        graph_of(JsonValue::Object(members)) == Err::<GraphView, DecodeErrorView>(
            edge_of(edges[k])->Err_0.under(PathStep::Index(k as usize)).under(
                PathStep::Key(Field::Edges),
            ),
        ),
{
    let outcomes = edge_outcomes(edges);
    assert forall|j: int| 0 <= j < k implies (#[trigger] outcomes[j]) is Ok by {
        assert(edge_of(edges[j]) is Ok);
    }
    law_collect_reports_first_fault(outcomes, k);
}

/// A graph with a node that does not decode is refused with the fault of the
/// first such node, at `nodes[k]`, whatever the edges hold.
pub proof fn law_graph_reports_first_faulty_node(
    members: Seq<(Seq<char>, JsonValue)>,
    nodes: Seq<JsonValue>,
    k: int,
)
    requires
        member(members, Field::Nodes.name()) == Some(JsonValue::Array(nodes)),
        0 <= k < nodes.len(),
        node_of(nodes[k]) is Err,
        forall|j: int| 0 <= j < k ==> node_of(#[trigger] nodes[j]) is Ok,
    ensures
        graph_of(JsonValue::Object(members)) == Err::<GraphView, DecodeErrorView>(
            node_of(nodes[k])->Err_0.under(PathStep::Index(k as usize)).under(
                PathStep::Key(Field::Nodes),
            ),
        ),
{
    let outcomes = node_outcomes(nodes);
    assert forall|j: int| 0 <= j < k implies (#[trigger] outcomes[j]) is Ok by {
        assert(node_of(nodes[j]) is Ok);
    }
    law_collect_reports_first_fault(outcomes, k);
}

/// Where a field is written as a quoted string, the decimal text of a number
/// that fits the field decodes to that number.
pub proof fn law_quoted_number_decodes(n: nat, max: nat)
    requires
        n <= max,
    ensures
        coerced_unsigned(JsonValue::Text(decimal_text(n)), max) == Ok::<nat, DecodeErrorView>(n),
{
    lemma_quoted_round_trip(n, max);
}

/// Decoding undoes encoding: the document of a graph decodes to the graph.
pub proof fn law_round_trip(g: GraphView)
    ensures
        graph_of(graph_json(g)) == Ok::<GraphView, DecodeErrorView>(g),
{
    let m = graph_json(g)->Object_0;
    let fields = seq![Field::Nodes, Field::Edges];
    lemma_member_at(m, fields, 0);
    lemma_member_at(m, fields, 1);
    let nodes = node_outcomes(nodes_json(g.nodes));
    assert forall|i: int| 0 <= i < g.nodes.len() implies #[trigger] nodes[i] == Ok::<
        NodeView,
        DecodeErrorView,
    >(g.nodes[i]) by {
        lemma_node_round_trip(g.nodes[i]);
    }
    lemma_collect_values(nodes, g.nodes);
    let edges = edge_outcomes(edges_json(g.edges));
    assert forall|i: int| 0 <= i < g.edges.len() implies #[trigger] edges[i] == Ok::<
        EdgeView,
        DecodeErrorView,
    >(g.edges[i]) by {
        lemma_edge_round_trip(g.edges[i]);
    }
    lemma_collect_values(edges, g.edges);
}

} // verus!
