use sflow::flowmap::FlowError;
use sflow::model::{Flow, FlowParams, Timestamp};
use sflow::query::{bound_or_fallback, graph_of_rows, handle, window, window_bound, SELECT_FAILED, WINDOW_FORMAT};

const FALLBACK: Timestamp =
    Timestamp { year: 2014, month: 5, day: 17, hour: 12, minute: 34, second: 56, nanosecond: 0 };

fn row(src: &str, dst: &str, size: i32) -> Flow {
    Flow {
        flow_id: 0,
        input_date: Timestamp { year: 2020, month: 1, day: 2, hour: 3, minute: 4, second: 5, nanosecond: 0 },
        agent: "agent".to_string(),
        utc: 0,
        src: src.to_string(),
        dst: dst.to_string(),
        srcport: -1,
        dstport: -1,
        ntype: "ipv4".to_string(),
        size,
    }
}

#[test]
fn a_bound_that_is_no_date_falls_back() {
    assert_eq!(window_bound("not-a-date"), FALLBACK);
    assert_eq!(window_bound(""), FALLBACK);
    assert_eq!(window_bound("2020-13-01 00:00:00"), FALLBACK);
    assert_eq!(window_bound("2020-01-02"), FALLBACK);
    assert_eq!(window_bound("2020-01-02 25:00:00"), FALLBACK);
}

#[test]
fn a_bound_that_is_a_date_is_read() {
    assert_eq!(
        window_bound("2020-01-02 03:04:05"),
        Timestamp { year: 2020, month: 1, day: 2, hour: 3, minute: 4, second: 5, nanosecond: 0 }
    );
    assert_eq!(
        window_bound("1999-12-31 23:59:59"),
        Timestamp { year: 1999, month: 12, day: 31, hour: 23, minute: 59, second: 59, nanosecond: 0 }
    );
    assert_eq!(WINDOW_FORMAT, "%Y-%m-%d %H:%M:%S");
}

#[test]
fn both_bounds_of_a_window() {
    let params = FlowParams { up_date: "2021-06-07 08:09:10".to_string(), down_date: "tomorrow".to_string() };
    let (from, to) = window(&params);
    assert_eq!(from, Timestamp { year: 2021, month: 6, day: 7, hour: 8, minute: 9, second: 10, nanosecond: 0 });
    assert_eq!(to, FALLBACK);
}

#[test]
fn the_fallback_is_fixed() {
    assert_eq!(bound_or_fallback(None), FALLBACK);
    let t = Timestamp { year: 1, month: 2, day: 3, hour: 4, minute: 5, second: 6, nanosecond: 7 };
    assert_eq!(bound_or_fallback(Some(t)), t);
}

#[test]
fn a_window_without_rows_gives_the_empty_graph() {
    let graph = handle(Some(vec![])).unwrap();
    assert!(graph.nodes.is_empty());
    assert!(graph.links.is_empty());
}

#[test]
fn rows_become_a_graph_without_noise() {
    let rows = vec![
        row("A", "B", 100),
        row("fe80:0000:0000:1", "B", 5),
        row("A", "B", 50),
        row("B", "A", 10),
        row("C", "ffffffffffff", 1),
    ];
    let graph = handle(Some(rows)).unwrap();
    let names: Vec<&str> = graph.nodes.iter().map(|n| n.name.as_str()).collect();
    assert_eq!(names, vec!["A", "B"]);
    assert_eq!(graph.links.len(), 2);
    assert_eq!((graph.links[0].source, graph.links[0].target, graph.links[0].value), (0, 1, 150));
    assert_eq!((graph.links[1].source, graph.links[1].target, graph.links[1].value), (1, 0, 10));
}

#[test]
fn a_failed_load_is_reported() {
    let message = handle(None).unwrap_err();
    assert_eq!(message.error, "Select Fail!");
    assert_eq!(message.error, SELECT_FAILED);
}

#[test]
fn rows_that_overflow_are_reported() {
    let rows = vec![row("A", "B", i32::MAX), row("A", "B", 1)];
    assert_eq!(graph_of_rows(&rows).err(), Some(FlowError::SizeOverflow));
    let rows = vec![row("A", "B", i32::MAX), row("A", "B", 1)];
    let message = handle(Some(rows)).unwrap_err();
    assert_eq!(message.error, FlowError::SizeOverflow.message());
    assert_eq!(message.error, "aggregated size does not fit in 32 bits");
    assert_eq!(FlowError::TooManyNodes.message(), "more endpoints than node ids");
}
