use sflow::aggregate::build_graph_from_db;
use sflow::filter::{
    filter_ff_mac, filter_local_ipv6, filter_multicast_ipv6, filter_noise, is_hit, BROADCAST_MAC,
    LOCAL_PREFIX, MULTICAST_PREFIX,
};
use sflow::flowmap::FlowMap;
use sflow::model::{Flow, Timestamp};

fn row(src: &str, dst: &str, size: i32) -> Flow {
    Flow {
        flow_id: 0,
        input_date: Timestamp { year: 2020, month: 1, day: 2, hour: 3, minute: 4, second: 5, nanosecond: 0 },
        agent: "agent".to_string(),
        utc: 0,
        src: src.to_string(),
        dst: dst.to_string(),
        srcport: -1,
        dstport: -1,
        ntype: "ipv6".to_string(),
        size,
    }
}

fn map(pairs: &[(&str, &str)]) -> FlowMap {
    let rows: Vec<Flow> = pairs.iter().map(|(s, d)| row(s, d, 1)).collect();
    build_graph_from_db(&rows).unwrap()
}

fn keys(fm: &FlowMap) -> Vec<String> {
    (0..fm.len()).map(|i| fm.edge(i).key()).collect()
}

#[test]
fn link_local_source_is_removed_whatever_the_target() {
    let mut fm = map(&[
        ("fe80:0000:0000:0000:0211:22ff:fe33:4455", "2001:0db8:0000:0000:0000:0000:0000:0001"),
        ("fe80:0000:0000:0000:0211:22ff:fe33:4455", "10.0.0.1"),
        ("fe80:0000:0000:0000:0211:22ff:fe33:4455", ""),
        ("10.0.0.1", "10.0.0.2"),
    ]);
    filter_local_ipv6(&mut fm);
    assert_eq!(keys(&fm), vec!["10.0.0.1=>10.0.0.2".to_string()]);
}

#[test]
fn link_local_target_is_removed_too() {
    let mut fm = map(&[("10.0.0.1", "fe80:0000:0000:0000:0000:0000:0000:0001"), ("10.0.0.1", "10.0.0.2")]);
    filter_local_ipv6(&mut fm);
    assert_eq!(keys(&fm), vec!["10.0.0.1=>10.0.0.2".to_string()]);
}

#[test]
fn prefix_must_stand_at_the_start() {
    let mut fm = map(&[
        ("xfe80:0000:1", "a"),
        ("2001:fe80:0000:1", "b"),
        ("fe80:0001:1", "c"),
        ("fe80:0000:", "d"),
        ("FE80:0000:1", "e"),
    ]);
    filter_local_ipv6(&mut fm);
    assert_eq!(
        keys(&fm),
        vec![
            "xfe80:0000:1=>a".to_string(),
            "2001:fe80:0000:1=>b".to_string(),
            "fe80:0001:1=>c".to_string(),
            "FE80:0000:1=>e".to_string(),
        ]
    );
}

#[test]
fn multicast_prefix_is_removed() {
    let mut fm = map(&[
        ("2001:0db8::1", "ff02:0000:0000:0000:0000:0000:0000:0001"),
        ("ff02:0000:0000:0000:0000:0000:0000:00fb", "2001:0db8::1"),
        ("ff05:0000:0000:0000:0000:0000:0000:0001", "2001:0db8::1"),
        ("fe80:0000:0000:0000:0000:0000:0000:0001", "2001:0db8::1"),
    ]);
    filter_multicast_ipv6(&mut fm);
    assert_eq!(
        keys(&fm),
        vec![
            "ff05:0000:0000:0000:0000:0000:0000:0001=>2001:0db8::1".to_string(),
            "fe80:0000:0000:0000:0000:0000:0000:0001=>2001:0db8::1".to_string(),
        ]
    );
}

#[test]
fn broadcast_mac_is_found_anywhere() {
    let mut fm = map(&[
        ("001122334455", "ffffffffffff"),
        ("ffffffffffff", "001122334455"),
        ("00ffffffffffff00", "001122334455"),
        ("fffffffffff", "001122334455"),
        ("001122334455", "66778899aabb"),
    ]);
    filter_ff_mac(&mut fm);
    assert_eq!(
        keys(&fm),
        vec!["fffffffffff=>001122334455".to_string(), "001122334455=>66778899aabb".to_string()]
    );
}

#[test]
fn all_three_filters_together() {
    let mut fm = map(&[
        ("a", "b"),
        ("ff02:0000:1", "b"),
        ("c", "fe80:0000:1"),
        ("ffffffffffff", "d"),
        ("e", "f"),
    ]);
    filter_noise(&mut fm);
    assert_eq!(keys(&fm), vec!["a=>b".to_string(), "e=>f".to_string()]);
}

#[test]
fn filtering_twice_removes_nothing_more() {
    let mut fm = map(&[
        ("a", "b"),
        ("ff02:0000:1", "b"),
        ("c", "fe80:0000:1"),
        ("ffffffffffff", "d"),
        ("e", "f"),
    ]);
    filter_noise(&mut fm);
    let once = keys(&fm);
    filter_noise(&mut fm);
    assert_eq!(keys(&fm), once);
    filter_local_ipv6(&mut fm);
    filter_multicast_ipv6(&mut fm);
    filter_ff_mac(&mut fm);
    assert_eq!(keys(&fm), once);
}

#[test]
fn filters_do_not_depend_on_their_order() {
    let pairs = [("a", "b"), ("ff02:0000:1", "b"), ("c", "fe80:0000:1"), ("ffffffffffff", "d"), ("e", "f")];
    let mut one = map(&pairs);
    filter_multicast_ipv6(&mut one);
    filter_ff_mac(&mut one);
    let mut other = map(&pairs);
    filter_ff_mac(&mut other);
    filter_multicast_ipv6(&mut other);
    assert_eq!(keys(&one), keys(&other));
    assert_eq!(keys(&one), vec!["a=>b".to_string(), "c=>fe80:0000:1".to_string(), "e=>f".to_string()]);
}

#[test]
fn the_texts_of_the_filter() {
    assert_eq!(MULTICAST_PREFIX, "ff02:0000:");
    assert_eq!(LOCAL_PREFIX, "fe80:0000:");
    assert_eq!(BROADCAST_MAC, "ffffffffffff");
}

#[test]
fn an_address_is_matched_character_for_character() {
    let mut fm = map(&[
        ("fe80:0000", "a"),
        ("fe80.0000:1", "b"),
        ("fe80:0000:\u{e9}", "c"),
        ("\u{e9}fe80:0000:", "d"),
        ("ff02:0000:", "e"),
        ("\u{e9}ffffffffffff\u{e9}", "f"),
        ("ffffff ffffff", "g"),
        ("FFFFFFFFFFFF", "h"),
    ]);
    filter_noise(&mut fm);
    assert_eq!(
        keys(&fm),
        vec![
            "fe80:0000=>a".to_string(),
            "fe80.0000:1=>b".to_string(),
            "\u{e9}fe80:0000:=>d".to_string(),
            "ffffff ffffff=>g".to_string(),
            "FFFFFFFFFFFF=>h".to_string(),
        ]
    );
}

#[test]
fn a_hit_needs_a_pattern_that_was_found() {
    assert!(is_hit(Some(true)));
    assert!(!is_hit(Some(false)));
    assert!(!is_hit(None));
}

#[test]
fn flagged_edges_are_removed_in_place() {
    let mut fm = map(&[("a", "b"), ("c", "d"), ("e", "f"), ("g", "h")]);
    fm.remove_flagged(&vec![true, false, true]);
    assert_eq!(keys(&fm), vec!["c=>d".to_string(), "g=>h".to_string()]);
    fm.remove_flagged(&vec![false, false, true, true]);
    assert_eq!(keys(&fm), vec!["c=>d".to_string(), "g=>h".to_string()]);
    fm.remove_flagged(&vec![]);
    assert_eq!(fm.len(), 2);
    fm.remove_flagged(&vec![true, true]);
    assert!(fm.is_empty());
}
