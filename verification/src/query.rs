//! The query path: the window of a query, and the graph of the rows that
//! were loaded for it.
//!
//! The bounds of a window come as texts of the form `YYYY-MM-DD HH:MM:SS`.
//! A bound that cannot be read is no error: it is replaced by a fixed
//! moment. A window without rows gives the empty graph.

use vstd::prelude::*;
use chrono::{Datelike, Timelike};
use crate::aggregate::{aggregate_rows, build_graph_from_db, row_observations, tally, tally_fits};
use crate::filter::{denoised, filter_noise};
use crate::flowmap::{all_fit, FlowError};
use crate::graph::{build_d3_data, endpoints, is_graph_of, link_views};
use crate::model::{Edge, ErrorMessage, Flow, FlowD3, FlowParams, Timestamp};

verus! {

/// The form in which the bounds of a window are written.
pub const WINDOW_FORMAT: &'static str = "%Y-%m-%d %H:%M:%S";

/// What the caller is told when the rows could not be loaded.
pub const SELECT_FAILED: &'static str = "Select Fail!";

/// The moment that `chrono::NaiveDateTime::parse_from_str` reads from a
/// text in a format, field by field, or `None` where it reads none.
pub uninterp spec fn parsed_moment(text: Seq<char>, format: Seq<char>) -> Option<Timestamp>;

/// Reads a moment with `chrono::NaiveDateTime::parse_from_str` and hands out
/// its fields as chrono reports them. Nothing is claimed of which texts are
/// read or as what, only that the result depends on the arguments alone.
#[verifier::external_body]
fn parse_moment(text: &str, format: &str) -> (parsed: Option<Timestamp>)
    ensures
        parsed == parsed_moment(text@, format@),
{
    match chrono::NaiveDateTime::parse_from_str(text, format) {
        Ok(moment) => Some(
            Timestamp {
                year: moment.year(),
                month: moment.month(),
                day: moment.day(),
                hour: moment.hour(),
                minute: moment.minute(),
                second: moment.second(),
                nanosecond: moment.nanosecond(),
            },
        ),
        Err(_) => None,
    }
}

/// The moment that stands in for a bound that cannot be read:
/// 2014-05-17 12:34:56.
pub open spec fn fallback_moment() -> Timestamp {
    Timestamp { year: 2014, month: 5, day: 17, hour: 12, minute: 34, second: 56, nanosecond: 0 }
}

/// The bound that a reading stands for: the moment that was read, or the
/// fallback where none was.
pub open spec fn bound_for(parsed: Option<Timestamp>) -> Timestamp {
    match parsed {
        Some(moment) => moment,
        None => fallback_moment(),
    }
}

/// The bound that a reading stands for.
pub fn bound_or_fallback(parsed: Option<Timestamp>) -> (bound: Timestamp)
    ensures
        bound == bound_for(parsed),
{
    match parsed {
        Some(moment) => moment,
        None => Timestamp {
            year: 2014,
            month: 5,
            day: 17,
            hour: 12,
            minute: 34,
            second: 56,
            nanosecond: 0,
        },
    }
}

/// One bound of a window, read leniently.
pub fn window_bound(text: &str) -> (bound: Timestamp)
    ensures
        bound == bound_for(parsed_moment(text@, WINDOW_FORMAT@)),
{
    bound_or_fallback(parse_moment(text, WINDOW_FORMAT))
}

/// The two bounds of the window of a query, in the order in which the
/// query names them.
pub fn window(params: &FlowParams) -> (bounds: (Timestamp, Timestamp))
    ensures
        bounds.0 == bound_for(parsed_moment(params.up_date@, WINDOW_FORMAT@)),
        bounds.1 == bound_for(parsed_moment(params.down_date@, WINDOW_FORMAT@)),
{
    (window_bound(params.up_date.as_str()), window_bound(params.down_date.as_str()))
}

/// The graph of the rows of a window: the rows aggregated, the noise taken
/// out, the rest turned into nodes and links.
pub fn graph_of_rows(rows: &Vec<Flow>) -> (built: Result<FlowD3, FlowError>)
    ensures
        match built {
            Ok(graph) => {
                &&& failure_of(rows@) is None
                &&& is_graph_of(graph.nodes@, graph.links@, denoised(aggregate_rows(rows@)))
                &&& graph.nodes@.len() == endpoints(denoised(aggregate_rows(rows@))).len()
            },
            Err(e) => failure_of(rows@) == Some(e),
        },
        rows@.len() == 0 ==> (built matches Ok(graph) && graph.nodes@.len() == 0
            && graph.links@.len() == 0),
{
    proof {
        if rows@.len() == 0 {
            assert forall|n: int| 0 <= n <= 0 implies all_fit(
                #[trigger] tally(row_observations(rows@).take(n)),
            ) by {}
        }
    }
    let mut fm = build_graph_from_db(rows)?;
    filter_noise(&mut fm);
    proof {
        if rows@.len() == 0 {
            assert(endpoints(fm@) =~= Set::empty());
        }
    }
    let (nodes, links) = build_d3_data(&fm)?;
    proof {
        if rows@.len() == 0 {
            assert(link_views(links@).len() == 0);
        }
    }
    Ok(FlowD3 { nodes, links })
}

/// Why the rows of a window give no graph, if they give none.
pub open spec fn failure_of(rows: Seq<Flow>) -> Option<FlowError> {
    if !tally_fits(row_observations(rows)) {
        Some(FlowError::SizeOverflow)
    } else if endpoints(denoised(aggregate_rows(rows))).len() > i32::MAX {
        Some(FlowError::TooManyNodes)
    } else {
        None
    }
}

/// What a query is answered with: the graph of the rows that were loaded,
/// or a message where loading or building failed. Rows that were loaded
/// and are none give the empty graph.
pub fn handle(loaded: Option<Vec<Flow>>) -> (answer: Result<FlowD3, ErrorMessage>)
    ensures
        match loaded {
            None => answer matches Err(message) && message.error@ == SELECT_FAILED@,
            Some(rows) => match answer {
                Ok(graph) => {
                    &&& failure_of(rows@) is None
                    &&& is_graph_of(graph.nodes@, graph.links@, denoised(aggregate_rows(rows@)))
                    &&& graph.nodes@.len() == endpoints(denoised(aggregate_rows(rows@))).len()
                },
                Err(message) => failure_of(rows@) matches Some(e) && message.error@ == e.text(),
            },
        },
        (loaded matches Some(rows) && rows@.len() == 0) ==> (answer matches Ok(graph)
            && graph.nodes@.len() == 0 && graph.links@.len() == 0),
{
    match loaded {
        None => Err(ErrorMessage { error: SELECT_FAILED.to_owned() }),
        Some(rows) => match graph_of_rows(&rows) {
            Ok(graph) => Ok(graph),
            Err(e) => Err(ErrorMessage { error: e.message() }),
        },
    }
}

} // verus!
