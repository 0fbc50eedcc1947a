use sflow::aggregate::build_graph_from_db;
use sflow::graph::build_d3_data;
use sflow::model::{Flow, Timestamp};
use sflow::order::{rank, Rank};

fn row(src: &str, dst: &str, size: i32, ntype: &str) -> Flow {
    Flow {
        flow_id: 0,
        input_date: Timestamp { year: 2020, month: 1, day: 2, hour: 3, minute: 4, second: 5, nanosecond: 0 },
        agent: "agent".to_string(),
        utc: 0,
        src: src.to_string(),
        dst: dst.to_string(),
        srcport: -1,
        dstport: -1,
        ntype: ntype.to_string(),
        size,
    }
}

#[test]
fn two_directions_make_two_nodes_and_two_links() {
    let rows = vec![row("A", "B", 100, "ipv4"), row("A", "B", 50, "ipv4"), row("B", "A", 10, "ipv4")];
    let fm = build_graph_from_db(&rows).unwrap();
    let (nodes, links) = build_d3_data(&fm).unwrap();
    assert_eq!(nodes.len(), 2);
    assert_eq!((nodes[0].nodeId, nodes[0].name.as_str()), (0, "A"));
    assert_eq!((nodes[1].nodeId, nodes[1].name.as_str()), (1, "B"));
    assert_eq!(links.len(), 2);
    assert_eq!((links[0].source, links[0].target, links[0].value), (0, 1, 150));
    assert_eq!((links[1].source, links[1].target, links[1].value), (1, 0, 10));
    assert!(links.iter().all(|l| l.source != l.target));
    assert_eq!(fm.len(), 2);
}

#[test]
fn nodes_come_in_ascending_order_of_their_addresses() {
    let rows = vec![
        row("10.0.0.9", "10.0.0.10", 1, "ipv4"),
        row("b", "a", 2, "mac"),
        row("10.0.0.10", "B", 3, "ipv4"),
    ];
    let fm = build_graph_from_db(&rows).unwrap();
    let (nodes, links) = build_d3_data(&fm).unwrap();
    let names: Vec<&str> = nodes.iter().map(|n| n.name.as_str()).collect();
    assert_eq!(names, vec!["10.0.0.10", "10.0.0.9", "B", "a", "b"]);
    let ids: Vec<i32> = nodes.iter().map(|n| n.nodeId).collect();
    assert_eq!(ids, vec![0, 1, 2, 3, 4]);
    assert_eq!((links[0].source, links[0].target), (1, 0));
    assert_eq!((links[1].source, links[1].target, links[1].ntype.as_str()), (4, 3, "mac"));
    assert_eq!((links[2].source, links[2].target), (0, 2));
}

#[test]
fn self_loops_give_a_node_and_no_link() {
    let rows = vec![row("A", "A", 7, "ipv4"), row("A", "B", 1, "ipv4"), row("C", "C", 9, "ipv4")];
    let fm = build_graph_from_db(&rows).unwrap();
    let (nodes, links) = build_d3_data(&fm).unwrap();
    assert_eq!(nodes.len(), 3);
    assert_eq!(links.len(), 1);
    assert_eq!((links[0].source, links[0].target, links[0].value), (0, 1, 1));
}

#[test]
fn links_read_back_to_their_edges() {
    let rows = vec![
        row("x", "y", 16_777_216, "ipv4"),
        row("y", "z", 16_777_217, "ipv6"),
        row("z", "x", i32::MAX, "mac"),
        row("x", "y", -5, "ipv4"),
    ];
    let fm = build_graph_from_db(&rows).unwrap();
    let (nodes, links) = build_d3_data(&fm).unwrap();
    assert_eq!(links.len(), fm.len());
    for (i, link) in links.iter().enumerate() {
        let edge = fm.edge(i);
        assert_eq!(nodes[link.source as usize].name, edge.source);
        assert_eq!(nodes[link.target as usize].name, edge.target);
        assert_eq!(link.value, edge.size);
        assert_eq!(link.ntype, edge.ntype);
    }
    assert_eq!(links[0].value, 16_777_211);
    assert_eq!(links[1].value, 16_777_217);
    assert_eq!(links[2].value, i32::MAX);
}

#[test]
fn empty_map_gives_empty_graph() {
    let fm = build_graph_from_db(&vec![]).unwrap();
    let (nodes, links) = build_d3_data(&fm).unwrap();
    assert!(nodes.is_empty());
    assert!(links.is_empty());
}

#[test]
fn texts_are_ranked_by_their_bytes() {
    assert_eq!(rank("a", "b"), Rank::Before);
    assert_eq!(rank("b", "a"), Rank::After);
    assert_eq!(rank("abc", "abc"), Rank::Same);
    assert_eq!(rank("", ""), Rank::Same);
    assert_eq!(rank("", "a"), Rank::Before);
    assert_eq!(rank("ab", "abc"), Rank::Before);
    assert_eq!(rank("abc", "ab"), Rank::After);
    assert_eq!(rank("B", "a"), Rank::Before);
    assert_eq!(rank("10", "9"), Rank::Before);
    assert_eq!(rank("z", "\u{e9}"), Rank::Before);
    assert_eq!(rank("\u{e9}", "\u{4e2d}"), Rank::Before);
}
