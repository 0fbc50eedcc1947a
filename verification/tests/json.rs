use sflow::aggregate::build_graph_from_db;
use sflow::json::{build_d3_json, links_to_json, nodes_to_json, push_decimal};
use sflow::model::{Flow, FlowDirection2, FlowName, Timestamp};

fn row(src: &str, dst: &str, size: i32, ntype: &str) -> Flow {
    Flow {
        flow_id: 0,
        input_date: Timestamp { year: 2020, month: 1, day: 2, hour: 3, minute: 4, second: 5, nanosecond: 0 },
        agent: "agent".to_string(),
        utc: 0,
        src: src.to_string(),
        dst: dst.to_string(),
        srcport: -1,
        dstport: -1,
        ntype: ntype.to_string(),
        size,
    }
}

#[test]
fn a_graph_as_json() {
    let rows = vec![row("A", "B", 100, "ipv4"), row("A", "B", 50, "ipv4"), row("B", "A", 10, "mac")];
    let fm = build_graph_from_db(&rows).unwrap();
    let (nodes, links) = build_d3_json(&fm).unwrap();
    assert_eq!(nodes, r#"[{"name":"A","nodeId":0},{"name":"B","nodeId":1}]"#);
    assert_eq!(
        links,
        r#"[{"ntype":"ipv4","source":0,"target":1,"value":150.0},{"ntype":"mac","source":1,"target":0,"value":10.0}]"#
    );
    let parsed: serde_json::Value = serde_json::from_str(&nodes).unwrap();
    assert_eq!(parsed[1]["name"], "B");
    assert_eq!(parsed[1]["nodeId"], 1);
    let parsed: serde_json::Value = serde_json::from_str(&links).unwrap();
    assert_eq!(parsed[0]["value"].as_f64(), Some(150.0));
    assert_eq!(parsed[1]["ntype"], "mac");
}

#[test]
fn the_empty_graph_as_json() {
    let fm = build_graph_from_db(&vec![]).unwrap();
    assert_eq!(build_d3_json(&fm).unwrap(), ("[]".to_string(), "[]".to_string()));
    assert_eq!(nodes_to_json(&vec![]).unwrap(), "[]");
    assert_eq!(links_to_json(&vec![]).unwrap(), "[]");
}

#[test]
fn texts_are_quoted_as_json_strings() {
    let nodes = vec![FlowName { nodeId: 7, name: "a\"b\\c\n\u{e9}".to_string() }];
    let text = nodes_to_json(&nodes).unwrap();
    assert_eq!(text, "[{\"name\":\"a\\\"b\\\\c\\n\u{e9}\",\"nodeId\":7}]");
    let parsed: serde_json::Value = serde_json::from_str(&text).unwrap();
    assert_eq!(parsed[0]["name"], "a\"b\\c\n\u{e9}");
}

#[test]
fn weights_keep_every_digit() {
    let links = vec![
        FlowDirection2 { source: 0, target: 1, ntype: "ipv4".to_string(), value: 16_777_217 },
        FlowDirection2 { source: 1, target: 2, ntype: "ipv6".to_string(), value: i32::MAX },
        FlowDirection2 { source: 2, target: 0, ntype: "".to_string(), value: i32::MIN },
    ];
    assert_eq!(
        links_to_json(&links).unwrap(),
        "[{\"ntype\":\"ipv4\",\"source\":0,\"target\":1,\"value\":16777217.0},\
         {\"ntype\":\"ipv6\",\"source\":1,\"target\":2,\"value\":2147483647.0},\
         {\"ntype\":\"\",\"source\":2,\"target\":0,\"value\":-2147483648.0}]"
    );
}

#[test]
fn decimals_are_written_exactly() {
    for (n, text) in [
        (0, "0"),
        (7, "7"),
        (10, "10"),
        (-1, "-1"),
        (1234567890, "1234567890"),
        (-907, "-907"),
        (i32::MAX, "2147483647"),
        (i32::MIN, "-2147483648"),
    ] {
        assert_eq!(push_decimal(String::new(), n), text);
        assert_eq!(push_decimal("x=".to_string(), n), format!("x={}", n));
    }
}
