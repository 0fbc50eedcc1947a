use sflow::flowmap::FlowError;
use sflow::ingest::{batch, input_data, Action, Ingestion};
use sflow::model::{Datagram, SampleV5};
use sflow::parser::{MalformedRecord, Parsed, Phase};

fn run(state: &mut Ingestion, lines: &[&str]) -> Vec<Action> {
    lines.iter().map(|line| input_data(state, line)).collect()
}

#[test]
fn a_datagram_gives_one_batch() {
    let mut state = Ingestion::new();
    let actions = run(
        &mut state,
        &[
            "startDatagram ====",
            "agent 10.0.0.254",
            "unixSecondsUTC 77",
            "startSample ----",
            "srcIP 10.0.0.1",
            "dstIP 10.0.0.2",
            "sampledPacketSize 100",
            "meanSkipCount 4",
            "TCPSrcPort 80",
            "TCPDstPort 5000",
            "endSample ----",
            "startSample ----",
            "srcIP 10.0.0.1",
            "dstIP 10.0.0.2",
            "sampledPacketSize 30",
            "meanSkipCount 4",
            "endSample ----",
            "startSample ----",
            "srcMAC 001122334455",
            "dstMAC ffffffffffff",
            "sampledPacketSize 64",
            "meanSkipCount 4",
            "endSample ----",
            "endDatagram ====",
        ],
    );
    let (last, before) = actions.split_last().unwrap();
    assert!(before.iter().all(|a| matches!(a, Action::Nothing)));
    match last {
        Action::Persist(edges) => {
            assert_eq!(edges.len(), 1);
            let e = &edges[0];
            assert_eq!(e.agent, "10.0.0.254");
            assert_eq!(e.utc, 77);
            assert_eq!(e.source, "10.0.0.1");
            assert_eq!(e.target, "10.0.0.2");
            assert_eq!(e.srcport, 80);
            assert_eq!(e.dstport, 5000);
            assert_eq!(e.ntype, "ipv4");
            assert_eq!(e.size, 430);
        },
        other => panic!("{:?}", other),
    }
    assert_eq!(state.discarded, 0);
    assert_eq!(state.lost, 0);
}

#[test]
fn batches_do_not_pile_up() {
    let mut state = Ingestion::new();
    let block = [
        "startDatagram",
        "startSample",
        "srcIP a",
        "dstIP b",
        "sampledPacketSize 10",
        "meanSkipCount 2",
        "endSample",
        "endDatagram",
    ];
    let first = run(&mut state, &block);
    let second = run(&mut state, &block);
    for actions in [first, second] {
        match actions.last().unwrap() {
            Action::Persist(edges) => {
                assert_eq!(edges.len(), 1);
                assert_eq!(edges[0].size, 20);
            },
            other => panic!("{:?}", other),
        }
    }
}

#[test]
fn nothing_is_written_for_noise_alone() {
    let mut state = Ingestion::new();
    let actions = run(
        &mut state,
        &[
            "startDatagram",
            "startSample",
            "srcIP6 fe80:0000:0000:0000:0000:0000:0000:0001",
            "dstIP6 ff02:0000:0000:0000:0000:0000:0000:0001",
            "sampledPacketSize 10",
            "meanSkipCount 2",
            "endSample",
            "endDatagram",
        ],
    );
    assert!(actions.iter().all(|a| matches!(a, Action::Nothing)));
    let actions = run(&mut state, &["startDatagram", "agent x", "endDatagram"]);
    assert!(actions.iter().all(|a| matches!(a, Action::Nothing)));
    assert_eq!(state.discarded, 0);
}

#[test]
fn a_rejected_datagram_is_counted_and_the_loop_goes_on() {
    let mut state = Ingestion::new();
    let actions = run(
        &mut state,
        &[
            "startDatagram",
            "startSample",
            "srcIP a",
            "dstIP b",
            "sampledPacketSize ten",
            "endSample",
            "endDatagram",
            "startDatagram",
            "startSample",
            "srcIP a",
            "dstIP b",
            "sampledPacketSize 10",
            "meanSkipCount 1",
            "endSample",
            "endDatagram",
        ],
    );
    assert!(matches!(&actions[4], Action::Rejected(e) if e.key == "sampledPacketSize" && e.value == "ten"));
    assert!(matches!(&actions[6], Action::Nothing));
    assert!(matches!(&actions[14], Action::Persist(edges) if edges.len() == 1 && edges[0].size == 10));
    assert_eq!(state.discarded, 1);
    assert_eq!(state.parser.phase, Phase::AwaitBlock);
}

#[test]
fn a_datagram_that_overflows_is_counted() {
    let mut state = Ingestion::new();
    let actions = run(
        &mut state,
        &[
            "startDatagram",
            "startSample",
            "srcIP a",
            "dstIP b",
            "sampledPacketSize 2147483647",
            "meanSkipCount 2",
            "endSample",
            "endDatagram",
        ],
    );
    assert!(matches!(actions.last().unwrap(), Action::Failed(FlowError::SizeOverflow)));
    assert_eq!(state.discarded, 1);
}

#[test]
fn lost_batches_are_counted() {
    let mut state = Ingestion::new();
    state.persist_failed();
    state.persist_failed();
    assert_eq!(state.lost, 2);
    assert_eq!(state.discarded, 0);
    state.lost = u64::MAX;
    state.persist_failed();
    assert_eq!(state.lost, u64::MAX);
}

#[test]
fn reactions_follow_what_was_parsed() {
    let mut state = Ingestion::new();
    assert!(matches!(state.react(Parsed::Nothing), Action::Nothing));
    let e = MalformedRecord { key: "k".to_string(), value: "v".to_string() };
    assert!(matches!(state.react(Parsed::Rejected(e)), Action::Rejected(r) if r.key == "k" && r.value == "v"));
    assert_eq!(state.discarded, 1);
    assert!(matches!(state.react(Parsed::Complete(Datagram::default())), Action::Nothing));
    assert_eq!(state.discarded, 1);
}

#[test]
fn the_batch_of_a_datagram_is_aggregated_and_filtered() {
    let mut dg = Datagram::default();
    dg.agent = "agent".to_string();
    for (src, dst) in [("a", "b"), ("fe80:0000:1", "b"), ("a", "b")] {
        let mut s = SampleV5::default();
        s.srcIP = Some(src.to_string());
        s.dstIP = Some(dst.to_string());
        s.sampledPacketSize = 3;
        s.meanSkipCount = 5;
        dg.samplev5.push(s);
    }
    let edges = batch(dg).unwrap();
    assert_eq!(edges.len(), 1);
    assert_eq!(edges[0].size, 18);
    assert_eq!(edges[0].source, "a");
}
