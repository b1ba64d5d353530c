use channel_graph::decode::{
    coerce_u16, coerce_u32, coerce_u64, decode_address, decode_bool, decode_edge, decode_node,
    decode_policy, decode_socket_addr, decode_text, decode_u16, decode_u32, json_kind,
};
use channel_graph::{
    decode_graph, from_json_str, DecodeError, Field, Json, JsonKind, NodePolicy, PathStep,
    SocketAddr,
};

fn text(s: &str) -> Json {
    Json::Text(s.to_string())
}

fn object(members: Vec<(&str, Json)>) -> Json {
    Json::Object(members.into_iter().map(|(k, v)| (k.to_string(), v)).collect())
}

fn policy_members() -> Vec<(&'static str, Json)> {
    vec![
        ("time_lock_delta", Json::Number(Some(14))),
        ("min_htlc", text("1000")),
        ("fee_base_msat", text("1000")),
        ("fee_rate_milli_msat", text("1")),
        ("disabled", Json::Bool(false)),
        ("max_htlc_msat", text("990000000")),
        ("last_update", Json::Number(Some(1571278793))),
    ]
}

fn edge_members() -> Vec<(&'static str, Json)> {
    vec![
        ("channel_id", text("659379322247708673")),
        ("chan_point", text("ae07:1")),
        ("last_update", Json::Number(Some(1571278793))),
        ("node1_pub", text("02899d")),
        ("node2_pub", text("0298f6")),
        ("capacity", text("1000000")),
    ]
}

fn with(mut members: Vec<(&'static str, Json)>, key: &'static str, value: Json) -> Json {
    members.retain(|(k, _)| *k != key);
    members.push((key, value));
    object(members)
}

fn without(mut members: Vec<(&'static str, Json)>, key: &'static str) -> Json {
    members.retain(|(k, _)| *k != key);
    object(members)
}

fn mismatch(path: Vec<PathStep>, found: JsonKind) -> DecodeError {
    DecodeError::TypeMismatch { path, found }
}

fn unparsable(path: Vec<PathStep>, text: &str) -> DecodeError {
    DecodeError::FieldParse { path, text: text.to_string() }
}

fn missing(path: Vec<PathStep>) -> DecodeError {
    DecodeError::MissingField { path }
}

#[test]
fn quoted_number_decodes_to_the_number() {
    assert_eq!(coerce_u32(&text("12345")), Ok(12345));
    assert_eq!(coerce_u64(&text("12345")), Ok(12345));
    assert_eq!(coerce_u16(&text("12345")), Ok(12345));
    assert_eq!(coerce_u32(&text("0")), Ok(0));
    assert_eq!(coerce_u32(&text("000123")), Ok(123));
    assert_eq!(coerce_u32(&text("+7")), Ok(7));
}

#[test]
fn quoted_number_at_the_limits_of_its_width() {
    assert_eq!(coerce_u16(&text("65535")), Ok(65535));
    assert_eq!(coerce_u16(&text("65536")), Err(unparsable(vec![], "65536")));
    assert_eq!(coerce_u32(&text("4294967295")), Ok(4294967295));
    assert_eq!(coerce_u32(&text("4294967296")), Err(unparsable(vec![], "4294967296")));
    assert_eq!(coerce_u64(&text("18446744073709551615")), Ok(18446744073709551615));
    assert_eq!(
        coerce_u64(&text("18446744073709551616")),
        Err(unparsable(vec![], "18446744073709551616"))
    );
    assert_eq!(
        coerce_u64(&text("99999999999999999999999999")),
        Err(unparsable(vec![], "99999999999999999999999999"))
    );
}

#[test]
fn native_number_where_a_quoted_one_is_due_is_a_mismatch() {
    assert_eq!(coerce_u32(&Json::Number(Some(12345))), Err(mismatch(vec![], JsonKind::Number)));
    assert_eq!(coerce_u64(&Json::Number(None)), Err(mismatch(vec![], JsonKind::Number)));
    assert_eq!(coerce_u64(&Json::Null), Err(mismatch(vec![], JsonKind::Null)));
    assert_eq!(coerce_u64(&Json::Bool(true)), Err(mismatch(vec![], JsonKind::Bool)));
    assert_eq!(coerce_u64(&Json::Array(vec![])), Err(mismatch(vec![], JsonKind::Array)));
    assert_eq!(coerce_u64(&Json::Object(vec![])), Err(mismatch(vec![], JsonKind::Object)));
}

#[test]
fn quoted_text_that_is_no_number_fails_to_parse() {
    for bad in ["abc", "", " 5", "5 ", "-5", "+", "++5", "5+", "1_000", "0x10", "1.0", "1e3", "\u{661}"] {
        assert_eq!(coerce_u32(&text(bad)), Err(unparsable(vec![], bad)), "{:?}", bad);
        assert_eq!(coerce_u64(&text(bad)), Err(unparsable(vec![], bad)), "{:?}", bad);
    }
}

#[test]
fn native_numbers_must_fit_their_field() {
    assert_eq!(decode_u16(&Json::Number(Some(65535))), Ok(65535));
    assert_eq!(decode_u16(&Json::Number(Some(65536))), Err(mismatch(vec![], JsonKind::Number)));
    assert_eq!(decode_u32(&Json::Number(Some(0))), Ok(0));
    assert_eq!(decode_u32(&Json::Number(Some(4294967295))), Ok(4294967295));
    assert_eq!(
        decode_u32(&Json::Number(Some(4294967296))),
        Err(mismatch(vec![], JsonKind::Number))
    );
    assert_eq!(decode_u32(&Json::Number(None)), Err(mismatch(vec![], JsonKind::Number)));
    assert_eq!(decode_u32(&text("5")), Err(mismatch(vec![], JsonKind::Text)));
}

#[test]
fn booleans_and_texts_are_taken_as_they_are() {
    assert_eq!(decode_bool(&Json::Bool(true)), Ok(true));
    assert_eq!(decode_bool(&Json::Bool(false)), Ok(false));
    assert_eq!(decode_bool(&text("true")), Err(mismatch(vec![], JsonKind::Text)));
    assert_eq!(decode_text(&text("")), Ok(String::new()));
    assert_eq!(decode_text(&text("WHENBTC")), Ok("WHENBTC".to_string()));
    assert_eq!(decode_text(&Json::Null), Err(mismatch(vec![], JsonKind::Null)));
}

#[test]
fn kinds_of_values() {
    assert_eq!(json_kind(&Json::Null), JsonKind::Null);
    assert_eq!(json_kind(&Json::Bool(false)), JsonKind::Bool);
    assert_eq!(json_kind(&Json::Number(None)), JsonKind::Number);
    assert_eq!(json_kind(&Json::Number(Some(1))), JsonKind::Number);
    assert_eq!(json_kind(&text("x")), JsonKind::Text);
    assert_eq!(json_kind(&Json::Array(vec![])), JsonKind::Array);
    assert_eq!(json_kind(&Json::Object(vec![])), JsonKind::Object);
}

#[test]
fn socket_address_field() {
    assert_eq!(
        decode_socket_addr(&text("67.166.1.116:9735")),
        Ok(SocketAddr::parse("67.166.1.116:9735").unwrap())
    );
    assert_eq!(
        decode_socket_addr(&text("example.org:9735")),
        Err(unparsable(vec![], "example.org:9735"))
    );
    assert_eq!(decode_socket_addr(&Json::Number(Some(1))), Err(mismatch(vec![], JsonKind::Number)));
}

#[test]
fn policy_decodes_to_its_literal_values() {
    assert_eq!(
        decode_policy(&object(policy_members())),
        Ok(NodePolicy {
            time_lock_delta: 14,
            min_htlc: 1000,
            fee_base_msat: 1000,
            fee_rate_milli_msat: 1,
            disabled: false,
            max_htlc_msat: 990000000,
            last_update: 1571278793,
        })
    );
}

#[test]
fn policy_faults_name_the_member() {
    assert_eq!(
        decode_policy(&without(policy_members(), "disabled")),
        Err(missing(vec![PathStep::Key(Field::Disabled)]))
    );
    assert_eq!(
        decode_policy(&with(policy_members(), "min_htlc", Json::Number(Some(1000)))),
        Err(mismatch(vec![PathStep::Key(Field::MinHtlc)], JsonKind::Number))
    );
    assert_eq!(
        decode_policy(&with(policy_members(), "max_htlc_msat", text("abc"))),
        Err(unparsable(vec![PathStep::Key(Field::MaxHtlcMsat)], "abc"))
    );
    assert_eq!(
        decode_policy(&with(policy_members(), "time_lock_delta", Json::Number(Some(65536)))),
        Err(mismatch(vec![PathStep::Key(Field::TimeLockDelta)], JsonKind::Number))
    );
    assert_eq!(decode_policy(&Json::Array(vec![])), Err(mismatch(vec![], JsonKind::Array)));
    assert_eq!(decode_policy(&Json::Null), Err(mismatch(vec![], JsonKind::Null)));
}

#[test]
fn first_fault_in_schema_order_is_reported() {
    let mut members = policy_members();
    members.retain(|(k, _)| *k != "last_update" && *k != "fee_base_msat");
    members.reverse();
    assert_eq!(decode_policy(&object(members)), Err(missing(vec![PathStep::Key(Field::FeeBaseMsat)])));
}

#[test]
fn absent_and_null_policy_are_the_same() {
    let absent = decode_edge(&object(edge_members())).unwrap();
    let null = decode_edge(&with(edge_members(), "node1_policy", Json::Null)).unwrap();
    assert_eq!(absent, null);
    assert_eq!(absent.node1_policy, None);
    assert_eq!(absent.node2_policy, None);
    let both = decode_edge(&with(
        edge_members().into_iter().chain([("node2_policy", Json::Null)]).collect(),
        "node1_policy",
        Json::Null,
    ))
    .unwrap();
    assert_eq!(absent, both);
}

#[test]
fn populated_policy_is_present() {
    let edge = decode_edge(&with(edge_members(), "node1_policy", object(policy_members()))).unwrap();
    assert_eq!(edge.node1_policy, decode_policy(&object(policy_members())).ok());
    assert_eq!(edge.node1_policy.unwrap().min_htlc, 1000);
    assert_eq!(edge.node2_policy, None);
    assert_eq!(edge.capacity, 1000000);
}

#[test]
fn policy_of_a_wrong_type_is_a_mismatch() {
    assert_eq!(
        decode_edge(&with(edge_members(), "node2_policy", Json::Number(Some(5)))),
        Err(mismatch(vec![PathStep::Key(Field::Node2Policy)], JsonKind::Number))
    );
    assert_eq!(
        decode_edge(&with(
            edge_members(),
            "node1_policy",
            without(policy_members(), "min_htlc")
        )),
        Err(missing(vec![PathStep::Key(Field::Node1Policy), PathStep::Key(Field::MinHtlc)]))
    );
}

#[test]
fn edge_faults() {
    assert_eq!(
        decode_edge(&without(edge_members(), "capacity")),
        Err(missing(vec![PathStep::Key(Field::Capacity)]))
    );
    assert_eq!(
        decode_edge(&with(edge_members(), "capacity", Json::Number(Some(1000000)))),
        Err(mismatch(vec![PathStep::Key(Field::Capacity)], JsonKind::Number))
    );
    assert_eq!(
        decode_edge(&with(edge_members(), "capacity", text("4294967296"))),
        Err(unparsable(vec![PathStep::Key(Field::Capacity)], "4294967296"))
    );
    assert_eq!(
        decode_edge(&with(edge_members(), "channel_id", Json::Number(Some(1)))),
        Err(mismatch(vec![PathStep::Key(Field::ChannelId)], JsonKind::Number))
    );
    assert_eq!(decode_edge(&text("edge")), Err(mismatch(vec![], JsonKind::Text)));
    assert_eq!(decode_edge(&with(edge_members(), "capacity", text("0"))).unwrap().capacity, 0);
}

#[test]
fn keys_are_matched_exactly_and_unknown_keys_are_ignored() {
    let mut members = edge_members();
    members.push(("Capacity", text("7")));
    members.push(("extra", Json::Array(vec![Json::Null])));
    assert_eq!(decode_edge(&object(members)).unwrap().capacity, 1000000);
    let mut renamed = edge_members();
    renamed.retain(|(k, _)| *k != "capacity");
    renamed.push(("CAPACITY", text("7")));
    assert_eq!(decode_edge(&object(renamed)), Err(missing(vec![PathStep::Key(Field::Capacity)])));
}

#[test]
fn address_and_node() {
    let address = object(vec![("network", text("tcp")), ("addr", text("[::1]:9735"))]);
    let decoded = decode_address(&address).unwrap();
    assert_eq!(decoded.network, "tcp");
    assert_eq!(Some(decoded.addr), SocketAddr::parse("[::1]:9735"));
    assert_eq!(
        decode_address(&object(vec![("network", text("tcp")), ("addr", text("nowhere"))])),
        Err(unparsable(vec![PathStep::Key(Field::Addr)], "nowhere"))
    );
    assert_eq!(
        decode_address(&object(vec![("network", text("tcp"))])),
        Err(missing(vec![PathStep::Key(Field::Addr)]))
    );
    let node = |addresses: Json| {
        object(vec![
            ("last_update", Json::Number(Some(1))),
            ("pub_key", text("02")),
            ("alias", text("")),
            ("addresses", addresses),
            ("color", text("#3399ff")),
        ])
    };
    let good = decode_node(&node(Json::Array(vec![]))).unwrap();
    assert_eq!(good.alias, "");
    assert!(good.addresses.is_empty());
    assert_eq!(
        decode_node(&node(Json::Null)),
        Err(mismatch(vec![PathStep::Key(Field::Addresses)], JsonKind::Null))
    );
    assert_eq!(
        decode_node(&node(Json::Array(vec![
            object(vec![("network", text("tcp")), ("addr", text("1.2.3.4:5"))]),
            object(vec![("network", text("tcp")), ("addr", text("1.2.3.4"))]),
            Json::Null,
        ]))),
        Err(unparsable(
            vec![PathStep::Key(Field::Addresses), PathStep::Index(1), PathStep::Key(Field::Addr)],
            "1.2.3.4"
        ))
    );
}

#[test]
fn root_must_hold_nodes_and_edges() {
    let nodes = missing(vec![PathStep::Key(Field::Nodes)]);
    let edges = missing(vec![PathStep::Key(Field::Edges)]);
    assert_eq!(from_json_str("[]"), Err(nodes.clone()));
    assert_eq!(from_json_str("null"), Err(nodes.clone()));
    assert_eq!(from_json_str("5"), Err(nodes.clone()));
    assert_eq!(from_json_str("{}"), Err(nodes.clone()));
    assert_eq!(from_json_str(r#"{"edges": []}"#), Err(nodes.clone()));
    assert_eq!(from_json_str(r#"{"nodes": []}"#), Err(edges.clone()));
    assert_eq!(from_json_str(r#"{"Nodes": [], "edges": []}"#), Err(nodes));
    assert_eq!(
        from_json_str(r#"{"nodes": {}, "edges": []}"#),
        Err(mismatch(vec![PathStep::Key(Field::Nodes)], JsonKind::Object))
    );
    assert_eq!(
        from_json_str(r#"{"nodes": [], "edges": "none"}"#),
        Err(mismatch(vec![PathStep::Key(Field::Edges)], JsonKind::Text))
    );
    let empty = from_json_str(r#"{"edges": [], "nodes": [], "more": 1.5}"#).unwrap();
    assert!(empty.nodes.is_empty());
    assert!(empty.edges.is_empty());
    assert_eq!(decode_graph(&Json::Bool(true)), Err(missing(vec![PathStep::Key(Field::Nodes)])));
}

#[test]
fn malformed_text_is_a_syntax_error() {
    assert_eq!(from_json_str("{"), Err(DecodeError::Syntax { line: 1, column: 1 }));
    assert_eq!(from_json_str(""), Err(DecodeError::Syntax { line: 1, column: 0 }));
    assert_eq!(
        from_json_str("{\n  \"nodes\": [,]\n}"),
        Err(DecodeError::Syntax { line: 2, column: 13 })
    );
    assert_eq!(
        from_json_str(r#"{"nodes": [], "edges": []} x"#),
        Err(DecodeError::Syntax { line: 1, column: 28 })
    );
    assert_eq!(
        from_json_str(r#"{"nodes": 5, "edges": ]"#),
        Err(DecodeError::Syntax { line: 1, column: 23 })
    );
}

#[test]
fn native_numbers_in_text() {
    let doc = |last_update: &str| {
        format!(
            r##"{{"nodes": [{{"last_update": {}, "pub_key": "a", "alias": "b", "addresses": [], "color": "c"}}], "edges": []}}"##,
            last_update
        )
    };
    let at = vec![PathStep::Key(Field::Nodes), PathStep::Index(0), PathStep::Key(Field::LastUpdate)];
    assert_eq!(from_json_str(&doc("4294967295")).unwrap().nodes[0].last_update, 4294967295);
    for bad in ["4294967296", "-1", "1.0", "1e2", "18446744073709551616"] {
        assert_eq!(
            from_json_str(&doc(bad)),
            Err(mismatch(at.clone(), JsonKind::Number)),
            "{}",
            bad
        );
    }
    assert_eq!(from_json_str(&doc("\"1\"")), Err(mismatch(at.clone(), JsonKind::Text)));
    assert_eq!(from_json_str(&doc("null")), Err(mismatch(at, JsonKind::Null)));
}

#[test]
fn order_of_nodes_and_edges_is_kept() {
    let node = |alias: &str| {
        format!(
            r##"{{"last_update": 1, "pub_key": "k", "alias": "{}", "addresses": [], "color": "c"}}"##,
            alias
        )
    };
    let edge = |id: &str| {
        format!(
            r##"{{"channel_id": "{}", "chan_point": "p", "last_update": 1, "node1_pub": "a", "node2_pub": "b", "capacity": "1"}}"##,
            id
        )
    };
    let text = format!(
        r##"{{"edges": [{}, {}], "nodes": [{}, {}, {}, {}]}}"##,
        edge("z"),
        edge("a"),
        node("delta"),
        node("alpha"),
        node("charlie"),
        node("bravo")
    );
    let graph = from_json_str(&text).unwrap();
    let aliases: Vec<&str> = graph.nodes.iter().map(|n| n.alias.as_str()).collect();
    assert_eq!(aliases, vec!["delta", "alpha", "charlie", "bravo"]);
    let ids: Vec<&str> = graph.edges.iter().map(|e| e.channel_id.as_str()).collect();
    assert_eq!(ids, vec!["z", "a"]);
}

#[test]
fn only_the_first_malformed_edge_is_reported() {
    let good = r##"{"channel_id": "c", "chan_point": "p", "last_update": 1, "node1_pub": "a", "node2_pub": "b", "capacity": "1"}"##;
    let no_capacity = r##"{"channel_id": "c", "chan_point": "p", "last_update": 1, "node1_pub": "a", "node2_pub": "b"}"##;
    let bad_capacity = r##"{"channel_id": "c", "chan_point": "p", "last_update": 1, "node1_pub": "a", "node2_pub": "b", "capacity": "x"}"##;
    let text = format!(
        r##"{{"nodes": [], "edges": [{}, {}, {}, {}]}}"##,
        good, no_capacity, bad_capacity, no_capacity
    );
    let fault = from_json_str(&text).unwrap_err();
    assert_eq!(
        fault,
        missing(vec![PathStep::Key(Field::Edges), PathStep::Index(1), PathStep::Key(Field::Capacity)])
    );
    assert_eq!(fault.place(), "edges[1].capacity");
    let text = format!(r##"{{"nodes": [], "edges": [{}, {}]}}"##, bad_capacity, no_capacity);
    assert_eq!(
        from_json_str(&text),
        Err(unparsable(
            vec![PathStep::Key(Field::Edges), PathStep::Index(0), PathStep::Key(Field::Capacity)],
            "x"
        ))
    );
}

#[test]
fn a_faulty_node_comes_before_a_faulty_edge() {
    let text = r##"{"edges": [5], "nodes": [true]}"##;
    assert_eq!(
        from_json_str(text),
        Err(mismatch(vec![PathStep::Key(Field::Nodes), PathStep::Index(0)], JsonKind::Bool))
    );
    let text = r##"{"edges": [5], "nodes": []}"##;
    let fault = from_json_str(text).unwrap_err();
    assert_eq!(
        fault,
        mismatch(vec![PathStep::Key(Field::Edges), PathStep::Index(0)], JsonKind::Number)
    );
    assert_eq!(fault.place(), "edges[0]");
}

#[test]
fn canonical_sample_fields() {
    let data = r##"{
        "nodes": [{
            "last_update": 1567764428,
            "pub_key": "0200424bd89b5282c310e10a52fd783070556f947b54d93f73fd89534ce0cba708",
            "alias": "WHENBTC",
            "addresses": [{"network": "tcp", "addr": "67.166.1.116:9735"}],
            "color": "#3399ff"
        }],
        "edges": [{
            "channel_id": "659379322247708673",
            "chan_point": "ae07c9fe78e6a1057902441f599246d735bac33be7b159667006757609fb5a86:1",
            "last_update": 1571278793,
            "node1_pub": "02899d09a65c5ca768c42b12e57d0497bfdf8ac1c46b0dcc0d4faefcdbc01304c1",
            "node2_pub": "0298f6074a454a1f5345cb2a7c6f9fce206cd0bf675d177cdbf0ca7508dd28852f",
            "capacity": "1000000",
            "node1_policy": null,
            "node2_policy": {
                "time_lock_delta": 14, "min_htlc": "1000", "fee_base_msat": "1000",
                "fee_rate_milli_msat": "1", "disabled": false, "max_htlc_msat": "990000000",
                "last_update": 1571278793
            }
        }]
    }"##;
    let graph = from_json_str(data).unwrap();
    assert_eq!(graph.nodes.len(), 1);
    assert_eq!(graph.edges.len(), 1);
    assert_eq!(graph.nodes[0].alias, "WHENBTC");
    assert_eq!(
        graph.nodes[0].pub_key,
        "0200424bd89b5282c310e10a52fd783070556f947b54d93f73fd89534ce0cba708"
    );
    assert_eq!(graph.nodes[0].addresses[0].network, "tcp");
    assert_eq!(Some(graph.nodes[0].addresses[0].addr), SocketAddr::parse("67.166.1.116:9735"));
    assert_eq!(graph.edges[0].capacity, 1000000);
    assert_eq!(graph.edges[0].node1_policy, None);
    assert_eq!(graph.edges[0].node2_policy.unwrap().min_htlc, 1000);
}

#[test]
fn a_repeated_key_counts_once() {
    let text = r##"{"nodes": [], "edges": [5], "edges": []}"##;
    assert!(from_json_str(text).unwrap().edges.is_empty());
    let first = object(vec![("nodes", Json::Array(vec![])), ("edges", Json::Array(vec![])), ("edges", Json::Null)]);
    assert!(decode_graph(&first).is_ok());
}
