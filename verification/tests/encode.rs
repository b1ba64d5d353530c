use channel_graph::error::qualified_name;
use channel_graph::{
    decode_graph, from_json_str, Address, DecodeError, Edge, Field, Graph, Ipv6, Json, Node,
    NodePolicy, PathStep, SocketAddr, SocketAddrV6,
};

fn policy(seed: u64) -> NodePolicy {
    NodePolicy {
        time_lock_delta: (seed % 65536) as u16,
        min_htlc: seed,
        fee_base_msat: seed.wrapping_mul(31),
        fee_rate_milli_msat: u64::MAX - seed,
        disabled: seed % 2 == 0,
        max_htlc_msat: 0,
        last_update: u32::MAX,
    }
}

fn sample() -> Graph {
    let v6 = SocketAddr::V6(SocketAddrV6 {
        ip: Ipv6 { s0: 0x2001, s1: 0xdb8, s2: 0, s3: 0, s4: 0, s5: 0xffff, s6: 0x10, s7: 1 },
        port: 65535,
        scope_id: 7,
    });
    Graph {
        nodes: vec![
            Node {
                last_update: 1567764428,
                pub_key: "0200424b".to_string(),
                alias: "WHEN \"BTC\" \\ \u{2603}\n".to_string(),
                addresses: vec![
                    Address {
                        network: "tcp".to_string(),
                        addr: SocketAddr::parse("67.166.1.116:9735").unwrap(),
                    },
                    Address { network: "tcp6".to_string(), addr: v6 },
                    Address {
                        network: String::new(),
                        addr: SocketAddr::parse("[::]:0").unwrap(),
                    },
                ],
                color: "#3399ff".to_string(),
            },
            Node {
                last_update: 0,
                pub_key: String::new(),
                alias: String::new(),
                addresses: vec![],
                color: String::new(),
            },
        ],
        edges: vec![
            Edge {
                channel_id: "659379322247708673".to_string(),
                chan_point: "ae07:1".to_string(),
                last_update: 1571278793,
                node1_pub: "02899d".to_string(),
                node2_pub: "0298f6".to_string(),
                capacity: 1000000,
                node1_policy: None,
                node2_policy: Some(policy(1000)),
            },
            Edge {
                channel_id: String::new(),
                chan_point: String::new(),
                last_update: 0,
                node1_pub: String::new(),
                node2_pub: String::new(),
                capacity: u32::MAX,
                node1_policy: Some(policy(u64::MAX)),
                node2_policy: Some(policy(0)),
            },
            Edge {
                channel_id: "c".to_string(),
                chan_point: "p".to_string(),
                last_update: 1,
                node1_pub: "a".to_string(),
                node2_pub: "b".to_string(),
                capacity: 0,
                node1_policy: None,
                node2_policy: None,
            },
        ],
    }
}

fn to_value(doc: &Json) -> serde_json::Value {
    match doc {
        Json::Null => serde_json::Value::Null,
        Json::Bool(b) => serde_json::Value::Bool(*b),
        Json::Number(n) => serde_json::Value::Number(serde_json::Number::from(n.unwrap())),
        Json::Text(s) => serde_json::Value::String(s.clone()),
        Json::Array(items) => serde_json::Value::Array(items.iter().map(to_value).collect()),
        Json::Object(members) => serde_json::Value::Object(
            members.iter().map(|(k, v)| (k.clone(), to_value(v))).collect(),
        ),
    }
}

#[test]
fn decoding_undoes_encoding() {
    let graph = sample();
    assert_eq!(decode_graph(&graph.to_json()), Ok(sample()));
    let empty = Graph { nodes: vec![], edges: vec![] };
    assert_eq!(decode_graph(&empty.to_json()), Ok(Graph { nodes: vec![], edges: vec![] }));
}

#[test]
fn decoding_undoes_encoding_through_text() {
    let graph = sample();
    let compact = serde_json::to_string(&to_value(&graph.to_json())).unwrap();
    assert_eq!(from_json_str(&compact), Ok(sample()));
    let pretty = serde_json::to_string_pretty(&to_value(&graph.to_json())).unwrap();
    assert_eq!(from_json_str(&pretty), Ok(sample()));
}

#[test]
fn policy_document_is_written_as_the_schema_says() {
    let p = NodePolicy {
        time_lock_delta: 14,
        min_htlc: 1000,
        fee_base_msat: 1000,
        fee_rate_milli_msat: 1,
        disabled: false,
        max_htlc_msat: 990000000,
        last_update: 1571278793,
    };
    let text = serde_json::to_string(&to_value(&p.to_json())).unwrap();
    let expected: serde_json::Value = serde_json::from_str(
        r#"{"time_lock_delta":14,"min_htlc":"1000","fee_base_msat":"1000","fee_rate_milli_msat":"1","disabled":false,"max_htlc_msat":"990000000","last_update":1571278793}"#,
    )
    .unwrap();
    assert_eq!(serde_json::from_str::<serde_json::Value>(&text).unwrap(), expected);
    assert_eq!(
        p.to_json(),
        Json::Object(vec![
            ("time_lock_delta".to_string(), Json::Number(Some(14))),
            ("min_htlc".to_string(), Json::Text("1000".to_string())),
            ("fee_base_msat".to_string(), Json::Text("1000".to_string())),
            ("fee_rate_milli_msat".to_string(), Json::Text("1".to_string())),
            ("disabled".to_string(), Json::Bool(false)),
            ("max_htlc_msat".to_string(), Json::Text("990000000".to_string())),
            ("last_update".to_string(), Json::Number(Some(1571278793))),
        ])
    );
}

#[test]
fn edge_document_writes_an_absent_policy_as_null() {
    let edge = Edge {
        channel_id: "c".to_string(),
        chan_point: "p".to_string(),
        last_update: 1,
        node1_pub: "a".to_string(),
        node2_pub: "b".to_string(),
        capacity: 1000000,
        node1_policy: None,
        node2_policy: None,
    };
    assert_eq!(
        edge.to_json(),
        Json::Object(vec![
            ("channel_id".to_string(), Json::Text("c".to_string())),
            ("chan_point".to_string(), Json::Text("p".to_string())),
            ("last_update".to_string(), Json::Number(Some(1))),
            ("node1_pub".to_string(), Json::Text("a".to_string())),
            ("node2_pub".to_string(), Json::Text("b".to_string())),
            ("capacity".to_string(), Json::Text("1000000".to_string())),
            ("node1_policy".to_string(), Json::Null),
            ("node2_policy".to_string(), Json::Null),
        ])
    );
}

#[test]
fn addresses_as_text() {
    assert_eq!(SocketAddr::parse("67.166.1.116:9735").unwrap().to_text(), "67.166.1.116:9735");
    assert_eq!(SocketAddr::parse("0.0.0.0:0").unwrap().to_text(), "0.0.0.0:0");
    assert_eq!(SocketAddr::parse("255.255.255.255:00065535").unwrap().to_text(), "255.255.255.255:65535");
    assert_eq!(SocketAddr::parse("[::1]:80").unwrap().to_text(), "[0:0:0:0:0:0:0:1]:80");
    assert_eq!(
        SocketAddr::parse("[2001:DB8::FFFF:1.2.3.4%12]:9735").unwrap().to_text(),
        "[2001:db8:0:0:0:ffff:102:304%12]:9735"
    );
    assert_eq!(SocketAddr::parse("[::%0]:1").unwrap().to_text(), "[0:0:0:0:0:0:0:0]:1");
    for text in ["1.2.3.4:5", "[1:2:3:4:5:6:7:8]:9", "[ffff:0:0:0:0:0:0:abcd%4294967295]:65535"] {
        let addr = SocketAddr::parse(text).unwrap();
        assert_eq!(addr.to_text(), text);
        assert_eq!(SocketAddr::parse(&addr.to_text()), Some(addr));
    }
}

#[test]
fn qualified_names() {
    assert_eq!(qualified_name(&vec![]), "");
    assert_eq!(qualified_name(&vec![PathStep::Key(Field::Nodes)]), "nodes");
    assert_eq!(
        qualified_name(&vec![
            PathStep::Key(Field::Edges),
            PathStep::Index(3),
            PathStep::Key(Field::Capacity)
        ]),
        "edges[3].capacity"
    );
    assert_eq!(
        qualified_name(&vec![
            PathStep::Key(Field::Nodes),
            PathStep::Index(120),
            PathStep::Key(Field::Addresses),
            PathStep::Index(0),
            PathStep::Key(Field::Addr)
        ]),
        "nodes[120].addresses[0].addr"
    );
    assert_eq!(
        qualified_name(&vec![
            PathStep::Key(Field::Edges),
            PathStep::Index(0),
            PathStep::Key(Field::Node2Policy),
            PathStep::Key(Field::FeeRateMilliMsat)
        ]),
        "edges[0].node2_policy.fee_rate_milli_msat"
    );
    assert_eq!(DecodeError::Syntax { line: 3, column: 4 }.place(), "");
}

#[test]
fn faults_are_seen_from_one_level_up() {
    let inner = DecodeError::FieldParse { path: vec![PathStep::Key(Field::Capacity)], text: "x".to_string() };
    assert_eq!(
        inner.under(PathStep::Index(2)),
        DecodeError::FieldParse {
            path: vec![PathStep::Index(2), PathStep::Key(Field::Capacity)],
            text: "x".to_string()
        }
    );
    assert_eq!(
        DecodeError::Syntax { line: 1, column: 2 }.under(PathStep::Index(2)),
        DecodeError::Syntax { line: 1, column: 2 }
    );
}

#[test]
fn every_key_is_written_in_snake_case() {
    let keys = [
        (Field::Nodes, "nodes"), (Field::Edges, "edges"), (Field::LastUpdate, "last_update"),
        (Field::PubKey, "pub_key"), (Field::Alias, "alias"), (Field::Addresses, "addresses"),
        (Field::Color, "color"), (Field::Network, "network"), (Field::Addr, "addr"),
        (Field::ChannelId, "channel_id"), (Field::ChanPoint, "chan_point"),
        (Field::Node1Pub, "node1_pub"), (Field::Node2Pub, "node2_pub"),
        (Field::Capacity, "capacity"), (Field::Node1Policy, "node1_policy"),
        (Field::Node2Policy, "node2_policy"), (Field::TimeLockDelta, "time_lock_delta"),
        (Field::MinHtlc, "min_htlc"), (Field::FeeBaseMsat, "fee_base_msat"),
        (Field::FeeRateMilliMsat, "fee_rate_milli_msat"), (Field::Disabled, "disabled"),
        (Field::MaxHtlcMsat, "max_htlc_msat"),
    ];
    for (field, key) in keys {
        assert_eq!(field.key(), key);
    }
}
