use sflow::model::{Datagram, SampleV5};
use sflow::parser::{read_datagram, read_sample_v5, Parsed, Parser, Phase, Progress};
use sflow::text::{chars_of, parse_decimal, same_text, split_line};

const BLOCK: &[&str] = &[
    "startDatagram =================================\n",
    "datagramSourceIP 10.0.0.254\n",
    "datagramSize 144\n",
    "unixSecondsUTC 1294273499\n",
    "datagramVersion 5\n",
    "agentSubId 0\n",
    "agent 10.0.0.254\n",
    "packetSequenceNo 23328\n",
    "sysUpTime 1512000\n",
    "samplesInPacket 2\n",
    "startSample ----------------------\n",
    "sampleType_tag 0:1\n",
    "sampleType FLOWSAMPLE\n",
    "sampleSequenceNo 3482\n",
    "meanSkipCount 400\n",
    "inputPort 14\n",
    "outputPort 16\n",
    "dstMAC 0016b6ff0b10\n",
    "srcMAC 001b21aabbcc\n",
    "sampledPacketSize 1518\n",
    "srcIP 10.0.0.1\n",
    "dstIP 10.0.0.2\n",
    "TCPSrcPort 80\n",
    "TCPDstPort 51234\n",
    "endSample   ----------------------\n",
    "startSample ----------------------\n",
    "srcIP6 2001:0db8:0000:0000:0000:0000:0000:0001\n",
    "dstIP6 2001:0db8:0000:0000:0000:0000:0000:0002\n",
    "UDPSrcPort 53\n",
    "UDPDstPort 5353\n",
    "sampledPacketSize 90\n",
    "meanSkipCount 1\n",
    "endSample   ----------------------\n",
    "endDatagram   =================================\n",
];

fn feed_all(parser: &mut Parser, lines: &[&str]) -> Vec<Parsed> {
    lines.iter().map(|line| parser.feed(line)).collect()
}

#[test]
fn a_block_becomes_a_datagram() {
    let mut parser = Parser::new();
    let mut outcomes = feed_all(&mut parser, BLOCK);
    let last = outcomes.pop().unwrap();
    assert!(outcomes.iter().all(|o| matches!(o, Parsed::Nothing)));
    let dg = match last {
        Parsed::Complete(dg) => dg,
        other => panic!("{:?}", other),
    };
    assert_eq!(dg.agent, "10.0.0.254");
    assert_eq!(dg.datagramSourceIP, "10.0.0.254");
    assert_eq!(dg.unixSecondsUTC, 1294273499);
    assert_eq!(dg.datagramVersion, 5);
    assert_eq!(dg.sysUpTime, 1512000);
    assert_eq!(dg.samplev5.len(), 2);
    let s = &dg.samplev5[0];
    assert_eq!(s.sampleSequenceNo, 3482);
    assert_eq!(s.meanSkipCount, 400);
    assert_eq!(s.inputPort, 14);
    assert_eq!(s.outputPort, 16);
    assert_eq!(s.dstMAC.as_deref(), Some("0016b6ff0b10"));
    assert_eq!(s.srcMAC.as_deref(), Some("001b21aabbcc"));
    assert_eq!(s.sampledPacketSize, 1518);
    assert_eq!(s.srcIP.as_deref(), Some("10.0.0.1"));
    assert_eq!(s.dstIP.as_deref(), Some("10.0.0.2"));
    assert_eq!(s.TCPSrcPort, Some(80));
    assert_eq!(s.TCPDstPort, Some(51234));
    assert_eq!(s.UDPSrcPort, None);
    assert_eq!(s.srcIP6, None);
    let s = &dg.samplev5[1];
    assert_eq!(s.srcIP6.as_deref(), Some("2001:0db8:0000:0000:0000:0000:0000:0001"));
    assert_eq!(s.dstIP6.as_deref(), Some("2001:0db8:0000:0000:0000:0000:0000:0002"));
    assert_eq!(s.UDPSrcPort, Some(53));
    assert_eq!(s.UDPDstPort, Some(5353));
    assert_eq!(s.sampledPacketSize, 90);
    assert_eq!(s.meanSkipCount, 1);
    assert_eq!(s.srcIP, None);
    assert_eq!(parser.phase, Phase::AwaitBlock);
    assert_eq!(parser.datagram.samplev5.len(), 0);
}

#[test]
fn blocks_follow_each_other() {
    let mut parser = Parser::new();
    let lines = ["noise 1", "startDatagram", "agent a", "endDatagram", "agent between", "startDatagram", "endDatagram"];
    let outcomes = feed_all(&mut parser, &lines);
    let agents: Vec<String> = outcomes
        .into_iter()
        .filter_map(|o| match o {
            Parsed::Complete(dg) => Some(dg.agent),
            _ => None,
        })
        .collect();
    assert_eq!(agents, vec!["a".to_string(), "".to_string()]);
}

#[test]
fn a_bad_number_rejects_the_whole_datagram() {
    let mut parser = Parser::new();
    let lines = [
        "startDatagram",
        "agent a",
        "startSample",
        "srcIP 1.1.1.1",
        "TCPSrcPort http",
        "dstIP 2.2.2.2",
        "endSample",
        "startSample",
        "endSample",
        "endDatagram",
        "startDatagram",
        "agent b",
        "endDatagram",
    ];
    let outcomes = feed_all(&mut parser, &lines);
    match &outcomes[4] {
        Parsed::Rejected(e) => {
            assert_eq!(e.key, "TCPSrcPort");
            assert_eq!(e.value, "http");
            assert_eq!(e.message(), "cannot read http as a value of TCPSrcPort");
        },
        other => panic!("{:?}", other),
    }
    for (i, o) in outcomes.iter().enumerate() {
        if i != 4 && i != 12 {
            assert!(matches!(o, Parsed::Nothing), "line {}", i);
        }
    }
    match &outcomes[12] {
        Parsed::Complete(dg) => {
            assert_eq!(dg.agent, "b");
            assert!(dg.samplev5.is_empty());
        },
        other => panic!("{:?}", other),
    }
}

#[test]
fn a_bad_number_in_the_datagram_rejects_it() {
    let mut parser = Parser::new();
    let outcomes = feed_all(&mut parser, &["startDatagram", "datagramVersion 500", "agent a", "endDatagram"]);
    assert!(matches!(&outcomes[1], Parsed::Rejected(e) if e.key == "datagramVersion" && e.value == "500"));
    assert!(matches!(&outcomes[2], Parsed::Nothing));
    assert!(matches!(&outcomes[3], Parsed::Nothing));
    assert_eq!(parser.phase, Phase::AwaitBlock);
}

#[test]
fn the_last_value_of_a_key_wins() {
    let mut s = SampleV5::default();
    assert_eq!(read_sample_v5(&mut s, "srcIP 1.1.1.1").unwrap(), false);
    assert_eq!(read_sample_v5(&mut s, "srcIP 9.9.9.9").unwrap(), false);
    assert_eq!(read_sample_v5(&mut s, "sampledPacketSize 1").unwrap(), false);
    assert_eq!(read_sample_v5(&mut s, "sampledPacketSize 22").unwrap(), false);
    assert_eq!(s.srcIP.as_deref(), Some("9.9.9.9"));
    assert_eq!(s.sampledPacketSize, 22);
}

#[test]
fn sample_lines_one_by_one() {
    let mut s = SampleV5::default();
    assert_eq!(read_sample_v5(&mut s, "inputPort -128\r\n").unwrap(), false);
    assert_eq!(s.inputPort, -128);
    assert_eq!(read_sample_v5(&mut s, "outputPort +127").unwrap(), false);
    assert_eq!(s.outputPort, 127);
    let e = read_sample_v5(&mut s, "outputPort 128").unwrap_err();
    assert_eq!((e.key.as_str(), e.value.as_str()), ("outputPort", "128"));
    assert_eq!(s.outputPort, 127);
    assert!(read_sample_v5(&mut s, "meanSkipCount").is_err());
    assert!(read_sample_v5(&mut s, "meanSkipCount 2147483648").is_err());
    assert_eq!(read_sample_v5(&mut s, "meanSkipCount \t 2147483647 trailing words").unwrap(), false);
    assert_eq!(s.meanSkipCount, 2147483647);
    assert_eq!(read_sample_v5(&mut s, "sampleSequenceNo -2147483648").unwrap(), false);
    assert_eq!(s.sampleSequenceNo, -2147483648);
    assert_eq!(read_sample_v5(&mut s, "srcMAC").unwrap(), false);
    assert_eq!(s.srcMAC.as_deref(), Some(""));
    assert_eq!(read_sample_v5(&mut s, "unknownKey what ever").unwrap(), false);
    assert_eq!(read_sample_v5(&mut s, "srcMACx 001122334455").unwrap(), false);
    assert_eq!(read_sample_v5(&mut s, " srcIP 1.1.1.1").unwrap(), false);
    assert_eq!(s.srcIP, None);
    assert_eq!(read_sample_v5(&mut s, "endDatagram").unwrap(), false);
    assert_eq!(read_sample_v5(&mut s, "").unwrap(), false);
    assert_eq!(read_sample_v5(&mut s, "endSample   ------").unwrap(), true);
    assert_eq!(read_sample_v5(&mut s, "endSample").unwrap(), true);
    assert_eq!(read_sample_v5(&mut s, "endSamples").unwrap(), false);
}

#[test]
fn datagram_lines_one_by_one() {
    let mut dg = Datagram::default();
    assert_eq!(read_datagram(&mut dg, "agent 10.1.1.1\n").unwrap(), Progress::More);
    assert_eq!(read_datagram(&mut dg, "agentSubId 7\n").unwrap(), Progress::More);
    assert_eq!(dg.agent, "10.1.1.1");
    assert_eq!(read_datagram(&mut dg, "sysUpTime 9223372036854775807").unwrap(), Progress::More);
    assert_eq!(dg.sysUpTime, i64::MAX);
    assert_eq!(read_datagram(&mut dg, "sysUpTime -9223372036854775808").unwrap(), Progress::More);
    assert_eq!(dg.sysUpTime, i64::MIN);
    assert!(read_datagram(&mut dg, "sysUpTime 9223372036854775808").is_err());
    assert!(read_datagram(&mut dg, "sysUpTime 99999999999999999999999999999999999999999999").is_err());
    assert_eq!(dg.sysUpTime, i64::MIN);
    assert!(read_datagram(&mut dg, "unixSecondsUTC 12a").is_err());
    assert!(read_datagram(&mut dg, "unixSecondsUTC 1.5").is_err());
    assert!(read_datagram(&mut dg, "unixSecondsUTC -").is_err());
    assert!(read_datagram(&mut dg, "unixSecondsUTC --1").is_err());
    assert_eq!(read_datagram(&mut dg, "unixSecondsUTC 0000000000000000000000012").unwrap(), Progress::More);
    assert_eq!(dg.unixSecondsUTC, 12);
    assert_eq!(read_datagram(&mut dg, "startSample ----").unwrap(), Progress::Sample);
    assert_eq!(read_datagram(&mut dg, "endDatagram ====").unwrap(), Progress::Done);
    assert_eq!(read_datagram(&mut dg, "startDatagram ====").unwrap(), Progress::More);
    assert_eq!(read_datagram(&mut dg, "endSample").unwrap(), Progress::More);
}

#[test]
fn lines_split_into_key_and_value() {
    assert_eq!(split_line("agent 10.0.0.1\n"), ("agent".to_string(), "10.0.0.1".to_string()));
    assert_eq!(split_line("agent"), ("agent".to_string(), "".to_string()));
    assert_eq!(split_line(""), ("".to_string(), "".to_string()));
    assert_eq!(split_line("  x y"), ("".to_string(), "x".to_string()));
    assert_eq!(split_line("k \t\r\n v w"), ("k".to_string(), "v".to_string()));
    assert_eq!(split_line("cl\u{e9} val\u{e9}e fin"), ("cl\u{e9}".to_string(), "val\u{e9}e".to_string()));
}

#[test]
fn decimals_are_read_exactly() {
    assert_eq!(parse_decimal("0", -10, 10), Some(0));
    assert_eq!(parse_decimal("-0", -10, 10), Some(0));
    assert_eq!(parse_decimal("+7", -10, 10), Some(7));
    assert_eq!(parse_decimal("10", -10, 10), Some(10));
    assert_eq!(parse_decimal("11", -10, 10), None);
    assert_eq!(parse_decimal("-10", -10, 10), Some(-10));
    assert_eq!(parse_decimal("-11", -10, 10), None);
    assert_eq!(parse_decimal("", -10, 10), None);
    assert_eq!(parse_decimal("+", -10, 10), None);
    assert_eq!(parse_decimal("1 ", -10, 10), None);
    assert_eq!(parse_decimal(" 1", -10, 10), None);
    assert_eq!(parse_decimal("1_0", -10, 10), None);
    assert_eq!(parse_decimal("0x1", -10, 10), None);
    assert_eq!(parse_decimal("\u{663}", -10, 10), None);
    assert_eq!(parse_decimal("123456789", i64::MIN, i64::MAX), Some(123456789));
    assert_eq!(parse_decimal("9223372036854775807", i64::MIN, i64::MAX), Some(i64::MAX));
    assert_eq!(parse_decimal("-9223372036854775808", i64::MIN, i64::MAX), Some(i64::MIN));
    assert_eq!(parse_decimal("-9223372036854775809", i64::MIN, i64::MAX), None);
}

#[test]
fn texts_compare_and_spell_out() {
    assert!(same_text("endSample", "endSample"));
    assert!(!same_text("endSample", "endSamples"));
    assert!(!same_text("inputPort", "endSample"));
    assert_eq!(chars_of("a\u{e9}\u{4e2d}"), vec!['a', '\u{e9}', '\u{4e2d}']);
}
