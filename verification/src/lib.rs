//! Aggregation of sampled network-flow records into a traffic graph.
//!
//! Lines of text from a flow collector are parsed into datagrams and
//! samples ([`parser`]); samples, or rows read back from storage, are
//! aggregated into one directional edge per pair of endpoints
//! ([`aggregate`], [`flowmap`], [`merge`]); edges with a multicast,
//! link-local or broadcast endpoint are taken out ([`filter`]); what is left
//! becomes a graph of nodes with dense ids and weighted links ([`graph`]),
//! which can be written as JSON ([`json`]).
//!
//! Two drivers tie the parts together, one step at a time, and leave reading
//! and writing to the caller: [`ingest`] says what is to be stored after
//! each line of the input stream, and [`query`] answers a query for a time
//! window from the rows that were loaded for it.

pub mod aggregate;
pub mod filter;
pub mod flowmap;
pub mod graph;
pub mod ingest;
pub mod json;
pub mod merge;
pub mod model;
pub mod order;
pub mod parser;
pub mod query;
pub mod text;

pub use aggregate::{build_graph, build_graph_from_db};
pub use filter::{filter_ff_mac, filter_local_ipv6, filter_multicast_ipv6, filter_noise};
pub use flowmap::{FlowError, FlowMap};
pub use graph::build_d3_data;
pub use ingest::{input_data, Action, Ingestion};
pub use json::build_d3_json;
pub use model::{
    Datagram, ErrorMessage, Flow, FlowD3, FlowDirection, FlowDirection2, FlowName, FlowParams,
    FlowPoint, SampleV5, Timestamp,
};
pub use parser::{read_datagram, read_sample_v5, MalformedRecord, Parsed, Parser};
