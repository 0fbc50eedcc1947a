//! The record parser: lines of `key value` text, grouped by block markers,
//! become datagrams and samples.
//!
//! A datagram stands between a `startDatagram` and an `endDatagram` line, a
//! sample between `startSample` and `endSample` inside a datagram. Every
//! other line gives a value to the field that its key names; a key that
//! names no field is passed over. A key that comes again overwrites.

use vstd::prelude::*;
use crate::model::{Datagram, SampleV5};
use crate::text::{decimal_within, line_key, line_value, parse_decimal, same_text, split_line};

verus! {

/// A line whose value is no number of the kind that its key asks for.
#[derive(Debug)]
pub struct MalformedRecord {
    pub key: String,
    pub value: String,
}

impl MalformedRecord {
    /// A sentence that names the key and the value.
    pub fn message(&self) -> (text: String)
        ensures
            text@ == "cannot read "@ + self.value@ + " as a value of "@ + self.key@,
    {
        let text = "cannot read ".to_owned();
        let text = text.concat(self.value.as_str());
        let text = text.concat(" as a value of ");
        text.concat(self.key.as_str())
    }
}

/// The range of the numbers that a key of a sample takes, if it takes
/// numbers.
pub open spec fn sample_number_range(key: Seq<char>) -> Option<(int, int)> {
    if key == "UDPSrcPort"@ || key == "UDPDstPort"@ || key == "TCPSrcPort"@ || key
        == "TCPDstPort"@ || key == "meanSkipCount"@ || key == "sampleSequenceNo"@ || key
        == "sampledPacketSize"@ {
        Some((i32::MIN as int, i32::MAX as int))
    } else if key == "inputPort"@ || key == "outputPort"@ {
        Some((i8::MIN as int, i8::MAX as int))
    } else {
        None
    }
}

/// The range of the numbers that a key of a datagram takes, if it takes
/// numbers.
pub open spec fn datagram_number_range(key: Seq<char>) -> Option<(int, int)> {
    if key == "unixSecondsUTC"@ {
        Some((i32::MIN as int, i32::MAX as int))
    } else if key == "datagramVersion"@ {
        Some((i8::MIN as int, i8::MAX as int))
    } else if key == "sysUpTime"@ {
        Some((i64::MIN as int, i64::MAX as int))
    } else {
        None
    }
}

/// The value is no number in the range.
pub open spec fn is_malformed(range: Option<(int, int)>, value: Seq<char>) -> bool {
    match range {
        Some((low, high)) => decimal_within(value, low, high) is None,
        None => false,
    }
}

/// The number that the value stands for.
pub open spec fn number(range: Option<(int, int)>, value: Seq<char>) -> int {
    match range {
        Some((low, high)) => decimal_within(value, low, high).unwrap(),
        None => 0,
    }
}

/// The text is `value`.
pub open spec fn holds(field: Option<String>, value: Seq<char>) -> bool {
    field matches Some(text) && text@ == value
}

/// `after` is the sample `before` with the field that `key` names set to
/// what `value` says, and every other field as it was. A key that names no
/// field changes nothing.
pub open spec fn sample_with(before: SampleV5, key: Seq<char>, value: Seq<char>, after: SampleV5) -> bool {
    let n = number(sample_number_range(key), value);
    if key == "srcMAC"@ {
        holds(after.srcMAC, value) && after == (SampleV5 { srcMAC: after.srcMAC, ..before })
    } else if key == "dstMAC"@ {
        holds(after.dstMAC, value) && after == (SampleV5 { dstMAC: after.dstMAC, ..before })
    } else if key == "srcIP"@ {
        holds(after.srcIP, value) && after == (SampleV5 { srcIP: after.srcIP, ..before })
    } else if key == "dstIP"@ {
        holds(after.dstIP, value) && after == (SampleV5 { dstIP: after.dstIP, ..before })
    } else if key == "srcIP6"@ {
        holds(after.srcIP6, value) && after == (SampleV5 { srcIP6: after.srcIP6, ..before })
    } else if key == "dstIP6"@ {
        holds(after.dstIP6, value) && after == (SampleV5 { dstIP6: after.dstIP6, ..before })
    } else if key == "UDPSrcPort"@ {
        after == (SampleV5 { UDPSrcPort: Some(n as i32), ..before })
    } else if key == "UDPDstPort"@ {
        after == (SampleV5 { UDPDstPort: Some(n as i32), ..before })
    } else if key == "TCPSrcPort"@ {
        after == (SampleV5 { TCPSrcPort: Some(n as i32), ..before })
    } else if key == "TCPDstPort"@ {
        after == (SampleV5 { TCPDstPort: Some(n as i32), ..before })
    } else if key == "meanSkipCount"@ {
        after == (SampleV5 { meanSkipCount: n as i32, ..before })
    } else if key == "inputPort"@ {
        after == (SampleV5 { inputPort: n as i8, ..before })
    } else if key == "outputPort"@ {
        after == (SampleV5 { outputPort: n as i8, ..before })
    } else if key == "sampleSequenceNo"@ {
        after == (SampleV5 { sampleSequenceNo: n as i32, ..before })
    } else if key == "sampledPacketSize"@ {
        after == (SampleV5 { sampledPacketSize: n as i32, ..before })
    } else {
        after == before
    }
}

/// `after` is the datagram `before` with the field that `key` names set to
/// what `value` says, and every other field as it was. A key that names no
/// field changes nothing.
pub open spec fn datagram_with(before: Datagram, key: Seq<char>, value: Seq<char>, after: Datagram) -> bool {
    let n = number(datagram_number_range(key), value);
    if key == "agent"@ {
        after.agent@ == value && after == (Datagram { agent: after.agent, ..before })
    } else if key == "datagramSourceIP"@ {
        after.datagramSourceIP@ == value && after == (Datagram {
            datagramSourceIP: after.datagramSourceIP,
            ..before
        })
    } else if key == "unixSecondsUTC"@ {
        after == (Datagram { unixSecondsUTC: n as i32, ..before })
    } else if key == "datagramVersion"@ {
        after == (Datagram { datagramVersion: n as i8, ..before })
    } else if key == "sysUpTime"@ {
        after == (Datagram { sysUpTime: n as i64, ..before })
    } else {
        after == before
    }
}

/// Reads the value of a line as a number in a range.
fn read_number(key: String, value: String, low: i64, high: i64) -> (read: Result<
    i64,
    MalformedRecord,
>)
    ensures
        match read {
            Ok(n) => decimal_within(value@, low as int, high as int) == Some(n as int),
            Err(e) => decimal_within(value@, low as int, high as int) is None && e.key@ == key@
                && e.value@ == value@,
        },
{
    match parse_decimal(value.as_str(), low, high) {
        Some(n) => Ok(n),
        None => Err(MalformedRecord { key, value }),
    }
}

/// Reads a 32-bit value.
fn read_i32(key: String, value: String) -> (read: Result<i32, MalformedRecord>)
    ensures
        match read {
            Ok(n) => decimal_within(value@, i32::MIN as int, i32::MAX as int) == Some(n as int),
            Err(e) => decimal_within(value@, i32::MIN as int, i32::MAX as int) is None && e.key@
                == key@ && e.value@ == value@,
        },
{
    match read_number(key, value, i32::MIN as i64, i32::MAX as i64) {
        Ok(n) => Ok(n as i32),
        Err(e) => Err(e),
    }
}

/// Reads an 8-bit value.
fn read_i8(key: String, value: String) -> (read: Result<i8, MalformedRecord>)
    ensures
        match read {
            Ok(n) => decimal_within(value@, i8::MIN as int, i8::MAX as int) == Some(n as int),
            Err(e) => decimal_within(value@, i8::MIN as int, i8::MAX as int) is None && e.key@
                == key@ && e.value@ == value@,
        },
{
    match read_number(key, value, i8::MIN as i64, i8::MAX as i64) {
        Ok(n) => Ok(n as i8),
        Err(e) => Err(e),
    }
}

/// Takes one line into a sample. The answer is whether the line ends the
/// sample. A value that is no number where the key asks for one is refused
/// and leaves the sample as it was.
pub fn read_sample_v5(s: &mut SampleV5, line: &str) -> (read: Result<bool, MalformedRecord>)
    ensures
        match read {
            Ok(ended) => {
                &&& ended == (line_key(line@) == "endSample"@)
                &&& !is_malformed(sample_number_range(line_key(line@)), line_value(line@))
                &&& sample_with(*old(s), line_key(line@), line_value(line@), *final(s))
            },
            Err(e) => {
                &&& is_malformed(sample_number_range(line_key(line@)), line_value(line@))
                &&& *final(s) == *old(s)
                &&& e.key@ == line_key(line@)
                &&& e.value@ == line_value(line@)
            },
        },
{
    let (key, value) = split_line(line);
    proof {
        lemma_keys_differ();
    }
    if same_text(key.as_str(), "srcMAC") {
        s.srcMAC = Some(value);
    } else if same_text(key.as_str(), "dstMAC") {
        s.dstMAC = Some(value);
    } else if same_text(key.as_str(), "srcIP") {
        s.srcIP = Some(value);
    } else if same_text(key.as_str(), "dstIP") {
        s.dstIP = Some(value);
    } else if same_text(key.as_str(), "srcIP6") {
        s.srcIP6 = Some(value);
    } else if same_text(key.as_str(), "dstIP6") {
        s.dstIP6 = Some(value);
    } else if same_text(key.as_str(), "UDPSrcPort") {
        s.UDPSrcPort = Some(read_i32(key, value)?);
    } else if same_text(key.as_str(), "UDPDstPort") {
        s.UDPDstPort = Some(read_i32(key, value)?);
    } else if same_text(key.as_str(), "TCPSrcPort") {
        s.TCPSrcPort = Some(read_i32(key, value)?);
    } else if same_text(key.as_str(), "TCPDstPort") {
        s.TCPDstPort = Some(read_i32(key, value)?);
    } else if same_text(key.as_str(), "meanSkipCount") {
        s.meanSkipCount = read_i32(key, value)?;
    } else if same_text(key.as_str(), "inputPort") {
        s.inputPort = read_i8(key, value)?;
    } else if same_text(key.as_str(), "outputPort") {
        s.outputPort = read_i8(key, value)?;
    } else if same_text(key.as_str(), "sampleSequenceNo") {
        s.sampleSequenceNo = read_i32(key, value)?;
    } else if same_text(key.as_str(), "sampledPacketSize") {
        s.sampledPacketSize = read_i32(key, value)?;
    } else if same_text(key.as_str(), "endSample") {
        return Ok(true);
    }
    Ok(false)
}

/// What a line means to the datagram that is being read.
#[derive(Debug, Clone, Copy, PartialEq, Eq, Structural)]
pub enum Progress {
    /// The line was taken in or passed over; the datagram goes on.
    More,
    /// A sample begins.
    Sample,
    /// The datagram is complete.
    Done,
}

/// What the key of a line means to a datagram.
pub open spec fn progress_of(key: Seq<char>) -> Progress {
    if key == "startSample"@ {
        Progress::Sample
    } else if key == "endDatagram"@ {
        Progress::Done
    } else {
        Progress::More
    }
}

/// Takes one line into a datagram. The answer is whether the datagram goes
/// on, a sample begins or the datagram is complete. A value that is no
/// number where the key asks for one is refused and leaves the datagram as
/// it was.
pub fn read_datagram(dg: &mut Datagram, line: &str) -> (read: Result<Progress, MalformedRecord>)
    ensures
        match read {
            Ok(progress) => {
                &&& progress == progress_of(line_key(line@))
                &&& !is_malformed(datagram_number_range(line_key(line@)), line_value(line@))
                &&& datagram_with(*old(dg), line_key(line@), line_value(line@), *final(dg))
            },
            Err(e) => {
                &&& is_malformed(datagram_number_range(line_key(line@)), line_value(line@))
                &&& *final(dg) == *old(dg)
                &&& e.key@ == line_key(line@)
                &&& e.value@ == line_value(line@)
            },
        },
{
    let (key, value) = split_line(line);
    proof {
        lemma_keys_differ();
    }
    if same_text(key.as_str(), "agent") {
        dg.agent = value;
    } else if same_text(key.as_str(), "datagramSourceIP") {
        dg.datagramSourceIP = value;
    } else if same_text(key.as_str(), "unixSecondsUTC") {
        dg.unixSecondsUTC = read_i32(key, value)?;
    } else if same_text(key.as_str(), "datagramVersion") {
        dg.datagramVersion = read_i8(key, value)?;
    } else if same_text(key.as_str(), "sysUpTime") {
        dg.sysUpTime = read_number(key, value, i64::MIN, i64::MAX)?;
    } else if same_text(key.as_str(), "startSample") {
        return Ok(Progress::Sample);
    } else if same_text(key.as_str(), "endDatagram") {
        return Ok(Progress::Done);
    }
    Ok(Progress::More)
}

/// The lengths and the first letters by which the keys and markers differ.
proof fn lemma_keys_differ()
    ensures
        "srcMAC"@.len() == 6,
        "dstMAC"@.len() == 6,
        "srcIP"@.len() == 5,
        "dstIP"@.len() == 5,
        "srcIP6"@.len() == 6,
        "dstIP6"@.len() == 6,
        "UDPSrcPort"@.len() == 10,
        "UDPDstPort"@.len() == 10,
        "TCPSrcPort"@.len() == 10,
        "TCPDstPort"@.len() == 10,
        "meanSkipCount"@.len() == 13,
        "inputPort"@.len() == 9,
        "outputPort"@.len() == 10,
        "sampleSequenceNo"@.len() == 16,
        "sampledPacketSize"@.len() == 17,
        "endSample"@.len() == 9,
        "agent"@.len() == 5,
        "datagramSourceIP"@.len() == 16,
        "unixSecondsUTC"@.len() == 14,
        "datagramVersion"@.len() == 15,
        "sysUpTime"@.len() == 9,
        "startSample"@.len() == 11,
        "endDatagram"@.len() == 11,
        "UDPSrcPort"@[0] == 'U',
        "UDPDstPort"@[0] == 'U',
        "TCPSrcPort"@[0] == 'T',
        "TCPDstPort"@[0] == 'T',
        "inputPort"@[0] == 'i',
        "outputPort"@[0] == 'o',
        "endSample"@[0] == 'e',
        "startSample"@[0] == 's',
        "endDatagram"@[0] == 'e',
{
    reveal_strlit("srcMAC");
    reveal_strlit("dstMAC");
    reveal_strlit("srcIP");
    reveal_strlit("dstIP");
    reveal_strlit("srcIP6");
    reveal_strlit("dstIP6");
    reveal_strlit("UDPSrcPort");
    reveal_strlit("UDPDstPort");
    reveal_strlit("TCPSrcPort");
    reveal_strlit("TCPDstPort");
    reveal_strlit("meanSkipCount");
    reveal_strlit("inputPort");
    reveal_strlit("outputPort");
    reveal_strlit("sampleSequenceNo");
    reveal_strlit("sampledPacketSize");
    reveal_strlit("endSample");
    reveal_strlit("agent");
    reveal_strlit("datagramSourceIP");
    reveal_strlit("unixSecondsUTC");
    reveal_strlit("datagramVersion");
    reveal_strlit("sysUpTime");
    reveal_strlit("startSample");
    reveal_strlit("endDatagram");
}

/// Where the parser stands in the stream of lines.
#[derive(Debug, Clone, Copy, PartialEq, Eq, Structural)]
pub enum Phase {
    /// Between datagrams: waiting for `startDatagram`.
    AwaitBlock,
    /// Inside a datagram, outside its samples.
    ParsingDatagram,
    /// Inside a sample.
    ParsingSample,
    /// Inside a datagram that was rejected: waiting for `endDatagram`.
    Discarding,
}

/// What a line brought to an end.
#[derive(Debug)]
pub enum Parsed {
    /// Nothing: the line was taken in or passed over.
    Nothing,
    /// A datagram is complete.
    Complete(Datagram),
    /// The datagram that was being read is rejected, because of this line.
    Rejected(MalformedRecord),
}

/// The parser of a stream of lines: where it stands, and the datagram and
/// the sample that are being read.
#[derive(Debug)]
pub struct Parser {
    pub phase: Phase,
    pub datagram: Datagram,
    pub sample: SampleV5,
}

/// The step that a line makes between datagrams: `startDatagram` opens a
/// blank datagram, any other line is passed over.
pub open spec fn awaits(before: Parser, key: Seq<char>, after: Parser, out: Parsed) -> bool {
    &&& out is Nothing
    &&& if key == "startDatagram"@ {
        &&& after.phase == Phase::ParsingDatagram
        &&& after.datagram.is_blank()
        &&& after.sample == before.sample
    } else {
        after == before
    }
}

/// The datagram that was being read is given up because of the line.
pub open spec fn rejects(before: Parser, key: Seq<char>, value: Seq<char>, after: Parser, out: Parsed) -> bool {
    &&& out matches Parsed::Rejected(e)
    &&& e.key@ == key
    &&& e.value@ == value
    &&& after == (Parser { phase: Phase::Discarding, ..before })
}

/// The step that a line makes inside a datagram: a field is set, a sample
/// is opened blank, or the datagram is handed out and a blank one left.
pub open spec fn parses_datagram(
    before: Parser,
    key: Seq<char>,
    value: Seq<char>,
    after: Parser,
    out: Parsed,
) -> bool {
    if is_malformed(datagram_number_range(key), value) {
        rejects(before, key, value, after, out)
    } else {
        match progress_of(key) {
            Progress::More => {
                &&& out is Nothing
                &&& after.phase == Phase::ParsingDatagram
                &&& datagram_with(before.datagram, key, value, after.datagram)
                &&& after.sample == before.sample
            },
            Progress::Sample => {
                &&& out is Nothing
                &&& after.phase == Phase::ParsingSample
                &&& after.datagram == before.datagram
                &&& after.sample.is_blank()
            },
            Progress::Done => {
                &&& out matches Parsed::Complete(dg)
                &&& dg == before.datagram
                &&& after.phase == Phase::AwaitBlock
                &&& after.datagram.is_blank()
                &&& after.sample == before.sample
            },
        }
    }
}

/// The step that a line makes inside a sample: a field is set, or the
/// sample is closed and appended to the samples of the datagram.
pub open spec fn parses_sample(
    before: Parser,
    key: Seq<char>,
    value: Seq<char>,
    after: Parser,
    out: Parsed,
) -> bool {
    if is_malformed(sample_number_range(key), value) {
        rejects(before, key, value, after, out)
    } else if key == "endSample"@ {
        &&& out is Nothing
        &&& after.phase == Phase::ParsingDatagram
        &&& after.datagram == (Datagram { samplev5: after.datagram.samplev5, ..before.datagram })
        &&& after.datagram.samplev5@ == before.datagram.samplev5@.push(before.sample)
        &&& after.sample.is_blank()
    } else {
        &&& out is Nothing
        &&& after.phase == Phase::ParsingSample
        &&& after.datagram == before.datagram
        &&& sample_with(before.sample, key, value, after.sample)
    }
}

/// The step that a line makes inside a rejected datagram: `endDatagram`
/// ends the rejection, every other line is dropped.
pub open spec fn discards(before: Parser, key: Seq<char>, after: Parser, out: Parsed) -> bool {
    &&& out is Nothing
    &&& after == (Parser {
        phase: if key == "endDatagram"@ {
            Phase::AwaitBlock
        } else {
            Phase::Discarding
        },
        ..before
    })
}

/// The step that a line makes: from the parser before it to the parser
/// after it and to what the line brought to an end.
pub open spec fn steps(before: Parser, line: Seq<char>, after: Parser, out: Parsed) -> bool {
    match before.phase {
        Phase::AwaitBlock => awaits(before, line_key(line), after, out),
        Phase::ParsingDatagram => parses_datagram(
            before,
            line_key(line),
            line_value(line),
            after,
            out,
        ),
        Phase::ParsingSample => parses_sample(before, line_key(line), line_value(line), after, out),
        Phase::Discarding => discards(before, line_key(line), after, out),
    }
}

impl Parser {
    /// A parser that waits for the first datagram.
    pub fn new() -> (parser: Parser)
        ensures
            parser.phase == Phase::AwaitBlock,
            parser.datagram.is_blank(),
            parser.sample.is_blank(),
    {
        Parser {
            phase: Phase::AwaitBlock,
            datagram: Datagram::default(),
            sample: SampleV5::default(),
        }
    }

    /// Takes the next line of the stream.
    pub fn feed(&mut self, line: &str) -> (out: Parsed)
        ensures
            steps(*old(self), line@, *final(self), out),
    {
        proof {
            lemma_keys_differ();
        }
        match self.phase {
            Phase::AwaitBlock => {
                let (key, _) = split_line(line);
                if same_text(key.as_str(), "startDatagram") {
                    self.datagram = Datagram::default();
                    self.phase = Phase::ParsingDatagram;
                }
                Parsed::Nothing
            },
            Phase::ParsingDatagram => {
                match read_datagram(&mut self.datagram, line) {
                    Ok(Progress::More) => Parsed::Nothing,
                    Ok(Progress::Sample) => {
                        self.sample = SampleV5::default();
                        self.phase = Phase::ParsingSample;
                        Parsed::Nothing
                    },
                    Ok(Progress::Done) => {
                        let mut complete = Datagram::default();
                        core::mem::swap(&mut self.datagram, &mut complete);
                        self.phase = Phase::AwaitBlock;
                        Parsed::Complete(complete)
                    },
                    Err(e) => {
                        self.phase = Phase::Discarding;
                        Parsed::Rejected(e)
                    },
                }
            },
            Phase::ParsingSample => {
                match read_sample_v5(&mut self.sample, line) {
                    Ok(false) => Parsed::Nothing,
                    Ok(true) => {
                        let mut closed = SampleV5::default();
                        core::mem::swap(&mut self.sample, &mut closed);
                        self.datagram.samplev5.push(closed);
                        self.phase = Phase::ParsingDatagram;
                        Parsed::Nothing
                    },
                    Err(e) => {
                        self.phase = Phase::Discarding;
                        Parsed::Rejected(e)
                    },
                }
            },
            Phase::Discarding => {
                let (key, _) = split_line(line);
                if same_text(key.as_str(), "endDatagram") {
                    self.phase = Phase::AwaitBlock;
                }
                Parsed::Nothing
            },
        }
    }
}

} // verus!
