//! Records of the flow pipeline and their mathematical values.

use vstd::prelude::*;

verus! {

/// One observed packet inside a datagram. Every address and port is
/// optional; which of them are present decides how the sample is classified.
#[allow(non_snake_case)]
#[derive(Debug)]
pub struct SampleV5 {
    pub srcMAC: Option<String>,
    pub dstMAC: Option<String>,
    pub srcIP: Option<String>,
    pub dstIP: Option<String>,
    pub srcIP6: Option<String>,
    pub dstIP6: Option<String>,
    pub UDPSrcPort: Option<i32>,
    pub UDPDstPort: Option<i32>,
    pub TCPSrcPort: Option<i32>,
    pub TCPDstPort: Option<i32>,
    pub meanSkipCount: i32,
    pub inputPort: i8,
    pub outputPort: i8,
    pub sampleSequenceNo: i32,
    pub sampledPacketSize: i32,
}

impl SampleV5 {
    /// A sample with no address, no port and every counter at zero.
    pub open spec fn is_blank(self) -> bool {
        &&& self.srcMAC is None
        &&& self.dstMAC is None
        &&& self.srcIP is None
        &&& self.dstIP is None
        &&& self.srcIP6 is None
        &&& self.dstIP6 is None
        &&& self.UDPSrcPort is None
        &&& self.UDPDstPort is None
        &&& self.TCPSrcPort is None
        &&& self.TCPDstPort is None
        &&& self.meanSkipCount == 0
        &&& self.inputPort == 0
        &&& self.outputPort == 0
        &&& self.sampleSequenceNo == 0
        &&& self.sampledPacketSize == 0
    }
}

impl Default for SampleV5 {
    fn default() -> (s: SampleV5)
        ensures
            s.is_blank(),
    {
        SampleV5 {
            srcMAC: None,
            dstMAC: None,
            srcIP: None,
            dstIP: None,
            srcIP6: None,
            dstIP6: None,
            UDPSrcPort: None,
            UDPDstPort: None,
            TCPSrcPort: None,
            TCPDstPort: None,
            meanSkipCount: 0,
            inputPort: 0,
            outputPort: 0,
            sampleSequenceNo: 0,
            sampledPacketSize: 0,
        }
    }
}

/// One ingestion unit: what the agent says of itself, and the samples it
/// sent, in the order in which they arrived.
#[allow(non_snake_case)]
#[derive(Debug)]
pub struct Datagram {
    pub agent: String,
    pub samplev5: Vec<SampleV5>,
    pub datagramSourceIP: String,
    pub unixSecondsUTC: i32,
    pub datagramVersion: i8,
    pub sysUpTime: i64,
}

impl Datagram {
    /// A datagram with empty texts, no sample and every number at zero.
    pub open spec fn is_blank(self) -> bool {
        &&& self.agent@.len() == 0
        &&& self.samplev5@.len() == 0
        &&& self.datagramSourceIP@.len() == 0
        &&& self.unixSecondsUTC == 0
        &&& self.datagramVersion == 0
        &&& self.sysUpTime == 0
    }
}

impl Default for Datagram {
    fn default() -> (dg: Datagram)
        ensures
            dg.is_blank(),
    {
        Datagram {
            agent: String::new(),
            samplev5: Vec::new(),
            datagramSourceIP: String::new(),
            unixSecondsUTC: 0,
            datagramVersion: 0,
            sysUpTime: 0,
        }
    }
}

/// Traffic counters of one endpoint.
#[derive(Debug)]
pub struct FlowPoint {
    pub ip: String,
    pub input: i64,
    pub output: i64,
}

impl Default for FlowPoint {
    fn default() -> (point: FlowPoint)
        ensures
            point.ip@.len() == 0,
            point.input == 0,
            point.output == 0,
    {
        FlowPoint { ip: String::new(), input: 0, output: 0 }
    }
}

/// The mathematical value of an aggregated edge: texts as sequences of
/// characters, numbers unbounded.
pub struct Edge {
    pub agent: Seq<char>,
    pub utc: int,
    pub source: Seq<char>,
    pub target: Seq<char>,
    pub srcport: int,
    pub dstport: int,
    pub ntype: Seq<char>,
    pub size: int,
}

impl Edge {
    /// The key under which an edge is aggregated: source, the separator
    /// `=>`, target. Direction matters: the edge back has another key.
    pub open spec fn key(self) -> Seq<char> {
        flow_key(self.source, self.target)
    }

    /// This edge with `amount` added to its size and nothing else changed.
    pub open spec fn grown(self, amount: int) -> Edge {
        Edge { size: self.size + amount, ..self }
    }

    /// The size fits the 32-bit field that carries it.
    pub open spec fn fits(self) -> bool {
        i32::MIN <= self.size <= i32::MAX
    }
}

/// The aggregation key of the direction from `source` to `target`.
pub open spec fn flow_key(source: Seq<char>, target: Seq<char>) -> Seq<char> {
    source + "=>"@ + target
}

/// An aggregated directional edge between two endpoints.
#[derive(Debug)]
pub struct FlowDirection {
    pub agent: String,
    pub utc: i32,
    pub source: String,
    pub target: String,
    pub srcport: i32,
    pub dstport: i32,
    pub ntype: String,
    pub size: i32,
}

impl View for FlowDirection {
    type V = Edge;

    open spec fn view(&self) -> Edge {
        Edge {
            agent: self.agent@,
            utc: self.utc as int,
            source: self.source@,
            target: self.target@,
            srcport: self.srcport as int,
            dstport: self.dstport as int,
            ntype: self.ntype@,
            size: self.size as int,
        }
    }
}

impl Default for FlowDirection {
    fn default() -> (edge: FlowDirection)
        ensures
            edge@ == (Edge {
                agent: Seq::empty(),
                utc: 0,
                source: Seq::empty(),
                target: Seq::empty(),
                srcport: 0,
                dstport: 0,
                ntype: Seq::empty(),
                size: 0,
            }),
    {
        FlowDirection {
            agent: String::new(),
            utc: 0,
            source: String::new(),
            target: String::new(),
            srcport: 0,
            dstport: 0,
            ntype: String::new(),
            size: 0,
        }
    }
}

impl Clone for FlowDirection {
    fn clone(&self) -> (copy: FlowDirection)
        ensures
            copy@ == self@,
    {
        FlowDirection {
            agent: self.agent.clone(),
            utc: self.utc,
            source: self.source.clone(),
            target: self.target.clone(),
            srcport: self.srcport,
            dstport: self.dstport,
            ntype: self.ntype.clone(),
            size: self.size,
        }
    }
}

impl FlowDirection {
    /// The key of this edge, as a text.
    pub fn key(&self) -> (key: String)
        ensures
            key@ == self@.key(),
    {
        make_key(&self.source, &self.target)
    }
}

/// The aggregation key of the direction from `source` to `target`, as a text.
pub fn make_key(source: &String, target: &String) -> (key: String)
    ensures
        key@ == flow_key(source@, target@),
{
    let key = source.clone();
    let key = key.concat("=>");
    key.concat(target.as_str())
}

/// One node of the graph: a dense id and the endpoint address it stands for.
#[allow(non_snake_case)]
#[derive(Debug)]
pub struct FlowName {
    pub nodeId: i32,
    pub name: String,
}

impl Default for FlowName {
    fn default() -> (node: FlowName)
        ensures
            node.nodeId == 0,
            node.name@.len() == 0,
    {
        FlowName { nodeId: 0, name: String::new() }
    }
}

impl Clone for FlowName {
    fn clone(&self) -> (copy: FlowName)
        ensures
            copy.nodeId == self.nodeId,
            copy.name@ == self.name@,
    {
        FlowName { nodeId: self.nodeId, name: self.name.clone() }
    }
}

/// One edge of the graph. Source and target are node ids, not addresses; the
/// value is the aggregated size of the edge, kept exact.
#[derive(Debug)]
pub struct FlowDirection2 {
    pub source: i32,
    pub target: i32,
    pub ntype: String,
    pub value: i32,
}

impl Default for FlowDirection2 {
    fn default() -> (link: FlowDirection2)
        ensures
            link.source == 0,
            link.target == 0,
            link.ntype@.len() == 0,
            link.value == 0,
    {
        FlowDirection2 { source: 0, target: 0, ntype: String::new(), value: 0 }
    }
}

impl Clone for FlowDirection2 {
    fn clone(&self) -> (copy: FlowDirection2)
        ensures
            copy.source == self.source,
            copy.target == self.target,
            copy.ntype@ == self.ntype@,
            copy.value == self.value,
    {
        FlowDirection2 {
            source: self.source,
            target: self.target,
            ntype: self.ntype.clone(),
            value: self.value,
        }
    }
}

/// A date and a time of day without a zone, field by field.
#[derive(Debug, Clone, Copy, PartialEq, Eq, Structural)]
pub struct Timestamp {
    pub year: i32,
    pub month: u32,
    pub day: u32,
    pub hour: u32,
    pub minute: u32,
    pub second: u32,
    pub nanosecond: u32,
}

/// One persisted row: an edge as it was seen in one ingestion batch.
#[derive(Debug)]
pub struct Flow {
    pub flow_id: i32,
    pub input_date: Timestamp,
    pub agent: String,
    pub utc: i32,
    pub src: String,
    pub dst: String,
    pub srcport: i32,
    pub dstport: i32,
    pub ntype: String,
    pub size: i32,
}

/// The bounds of a query window, as the caller wrote them.
#[derive(Debug)]
pub struct FlowParams {
    pub up_date: String,
    pub down_date: String,
}

impl Clone for FlowParams {
    fn clone(&self) -> (copy: FlowParams)
        ensures
            copy.up_date@ == self.up_date@,
            copy.down_date@ == self.down_date@,
    {
        FlowParams { up_date: self.up_date.clone(), down_date: self.down_date.clone() }
    }
}

/// The payload of a failed query.
#[derive(Debug)]
pub struct ErrorMessage {
    pub error: String,
}

/// The payload of an answered query: the graph of the window.
#[derive(Debug)]
pub struct FlowD3 {
    pub nodes: Vec<FlowName>,
    pub links: Vec<FlowDirection2>,
}

impl Default for FlowD3 {
    fn default() -> (graph: FlowD3)
        ensures
            graph.nodes@.len() == 0,
            graph.links@.len() == 0,
    {
        FlowD3 { nodes: Vec::new(), links: Vec::new() }
    }
}

} // verus!
