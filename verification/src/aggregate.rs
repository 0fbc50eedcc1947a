//! The aggregator: repeated observations of one direction are collapsed
//! into one edge whose size is their sum.

use vstd::prelude::*;
use crate::flowmap::{absorb, all_fit, lemma_absorb_keeps_keys, unique_keys, FlowError, FlowMap};
use crate::model::{make_key, Datagram, Edge, Flow, FlowDirection, SampleV5};

verus! {

/// One observation of a direction: the edge that enters the map if the key
/// is new, and the amount by which the edge grows if the key is known.
pub struct Observation {
    pub edge: Edge,
    pub increment: int,
}

/// The edges that a sequence of observations adds up to, in the order in
/// which their keys were first seen.
pub open spec fn tally(observations: Seq<Observation>) -> Seq<Edge>
    decreases observations.len(),
{
    if observations.len() == 0 {
        Seq::empty()
    } else {
        absorb(
            tally(observations.drop_last()),
            observations.last().edge,
            observations.last().increment,
        )
    }
}

/// Every running total of the observations fits its 32-bit field.
pub open spec fn tally_fits(observations: Seq<Observation>) -> bool {
    forall|n: int| 0 <= n <= observations.len() ==> all_fit(#[trigger] tally(observations.take(n)))
}

/// What a persisted row contributes: its own fields as the edge, and its
/// size both as the first size and as the increment.
pub open spec fn row_observation(row: Flow) -> Observation {
    Observation {
        edge: Edge {
            agent: row.agent@,
            utc: row.utc as int,
            source: row.src@,
            target: row.dst@,
            srcport: row.srcport as int,
            dstport: row.dstport as int,
            ntype: row.ntype@,
            size: row.size as int,
        },
        increment: row.size as int,
    }
}

/// The observations of a sequence of persisted rows, one per row.
pub open spec fn row_observations(rows: Seq<Flow>) -> Seq<Observation> {
    rows.map_values(|row: Flow| row_observation(row))
}

/// The edges that a sequence of persisted rows aggregates to.
pub open spec fn aggregate_rows(rows: Seq<Flow>) -> Seq<Edge> {
    tally(row_observations(rows))
}

/// The endpoints of a sample and the tag of the address family they come
/// from: IPv4 where both IPv4 addresses are present, else IPv6 where both
/// IPv6 addresses are, else the MAC addresses where both are. A sample with
/// no complete pair has no endpoints.
pub open spec fn sample_endpoints(s: SampleV5) -> Option<(Seq<char>, Seq<char>, Seq<char>)> {
    if s.srcIP is Some && s.dstIP is Some {
        Some((s.srcIP->0@, s.dstIP->0@, "ipv4"@))
    } else if s.srcIP6 is Some && s.dstIP6 is Some {
        Some((s.srcIP6->0@, s.dstIP6->0@, "ipv6"@))
    } else if s.srcMAC is Some && s.dstMAC is Some {
        Some((s.srcMAC->0@, s.dstMAC->0@, "mac"@))
    } else {
        None
    }
}

/// The ports of a sample: the UDP pair where both are present, else the TCP
/// pair where both are, else -1 for both.
pub open spec fn sample_ports(s: SampleV5) -> (int, int) {
    if s.UDPSrcPort is Some && s.UDPDstPort is Some {
        (s.UDPSrcPort->0 as int, s.UDPDstPort->0 as int)
    } else if s.TCPSrcPort is Some && s.TCPDstPort is Some {
        (s.TCPSrcPort->0 as int, s.TCPDstPort->0 as int)
    } else {
        (-1, -1)
    }
}

/// What a sample contributes, if it has endpoints. On the first sight of its
/// key the edge enters with the packet size times the skip count; on a later
/// sight the edge grows by the packet size alone.
pub open spec fn sample_observation(dg: Datagram, s: SampleV5) -> Option<Observation> {
    match sample_endpoints(s) {
        Some((source, target, ntype)) => Some(
            Observation {
                edge: Edge {
                    agent: dg.agent@,
                    utc: dg.unixSecondsUTC as int,
                    source,
                    target,
                    srcport: sample_ports(s).0,
                    dstport: sample_ports(s).1,
                    ntype,
                    size: s.sampledPacketSize * s.meanSkipCount,
                },
                increment: s.sampledPacketSize as int,
            },
        ),
        None => None,
    }
}

/// The observations of the first samples of a datagram, in order; samples
/// without endpoints contribute nothing.
pub open spec fn sample_observations(dg: Datagram, samples: Seq<SampleV5>) -> Seq<Observation>
    decreases samples.len(),
{
    if samples.len() == 0 {
        Seq::empty()
    } else {
        let before = sample_observations(dg, samples.drop_last());
        match sample_observation(dg, samples.last()) {
            Some(o) => before.push(o),
            None => before,
        }
    }
}

/// The observations of a sequence of datagrams: those of each datagram's
/// samples, datagram after datagram.
pub open spec fn observations(data: Seq<Datagram>) -> Seq<Observation>
    decreases data.len(),
{
    if data.len() == 0 {
        Seq::empty()
    } else {
        observations(data.drop_last()) + sample_observations(data.last(), data.last().samplev5@)
    }
}

/// The edges that a sequence of datagrams aggregates to.
pub open spec fn aggregate(data: Seq<Datagram>) -> Seq<Edge> {
    tally(observations(data))
}

/// A tally has distinct keys.
pub proof fn lemma_tally_unique(observations: Seq<Observation>)
    ensures
        unique_keys(tally(observations)),
    decreases observations.len(),
{
    if observations.len() > 0 {
        lemma_tally_unique(observations.drop_last());
        lemma_absorb_keeps_keys(
            tally(observations.drop_last()),
            observations.last().edge,
            observations.last().increment,
        );
    }
}

/// One observation more is one more step of the fold.
pub proof fn lemma_tally_push(observations: Seq<Observation>, o: Observation)
    ensures
        tally(observations.push(o)) == absorb(tally(observations), o.edge, o.increment),
{
    assert(observations.push(o).drop_last() =~= observations);
}

/// Aggregates persisted rows into a map: one edge per `src=>dst` key, with
/// the fields of the first row of that key and the sizes of all its rows
/// added up. Fails if a running total leaves the 32-bit range.
pub fn build_graph_from_db(data: &Vec<Flow>) -> (built: Result<FlowMap, FlowError>)
    ensures
        match built {
            Ok(fm) => fm@ == aggregate_rows(data@) && tally_fits(row_observations(data@)),
            Err(e) => e == FlowError::SizeOverflow && !tally_fits(row_observations(data@)),
        },
{
    let mut fm = FlowMap::new();
    let ghost all = row_observations(data@);
    let mut i: usize = 0;
    while i < data.len()
        invariant
            i <= data@.len(),
            all == row_observations(data@),
            fm@ == tally(all.take(i as int)),
            forall|n: int| 0 <= n <= i ==> all_fit(#[trigger] tally(all.take(n))),
        decreases data@.len() - i,
    {
        let row = &data[i];
        let key = make_key(&row.src, &row.dst);
        proof {
            assert(all.take(i + 1) =~= all.take(i as int).push(row_observation(*row)));
            lemma_tally_push(all.take(i as int), row_observation(*row));
        }
        match fm.find(&key) {
            Some(at) => {
                if fm.grow(at, row.size).is_err() {
                    assert(!all_fit(tally(all.take(i + 1)))) by {
                        assert(!tally(all.take(i + 1))[at as int].fits());
                    }
                    return Err(FlowError::SizeOverflow);
                }
            },
            None => {
                fm.append(
                    FlowDirection {
                        agent: row.agent.clone(),
                        utc: row.utc,
                        source: row.src.clone(),
                        target: row.dst.clone(),
                        srcport: row.srcport,
                        dstport: row.dstport,
                        ntype: row.ntype.clone(),
                        size: row.size,
                    },
                );
            },
        }
        i += 1;
    }
    assert(all.take(data@.len() as int) =~= all);
    Ok(fm)
}

/// The observations of a longer run of samples are those of a shorter run,
/// followed by those of the rest.
pub proof fn lemma_sample_observations_split(dg: Datagram, samples: Seq<SampleV5>, at: int)
    requires
        0 <= at <= samples.len(),
    ensures
        sample_observations(dg, samples) == sample_observations(dg, samples.take(at))
            + sample_observations(dg, samples.skip(at)),
    decreases samples.len(),
{
    if at == samples.len() {
        assert(samples.take(at) =~= samples);
        assert(sample_observations(dg, samples) + Seq::<Observation>::empty()
            =~= sample_observations(dg, samples));
    } else {
        lemma_sample_observations_split(dg, samples.drop_last(), at);
        assert(samples.drop_last().take(at) =~= samples.take(at));
        assert(samples.drop_last().skip(at) =~= samples.skip(at).drop_last());
    }
}

/// The observations of a longer run of datagrams are those of a shorter
/// run, followed by those of the rest.
pub proof fn lemma_observations_split(data: Seq<Datagram>, at: int)
    requires
        0 <= at <= data.len(),
    ensures
        observations(data) == observations(data.take(at)) + observations(data.skip(at)),
    decreases data.len(),
{
    if at == data.len() {
        assert(data.take(at) =~= data);
    } else {
        lemma_observations_split(data.drop_last(), at);
        assert(data.drop_last().take(at) =~= data.take(at));
        assert(data.drop_last().skip(at) =~= data.skip(at).drop_last());
    }
}

/// The observations made up to sample `j` of datagram `i` open the
/// observations of the whole input.
proof fn lemma_observations_prefix(data: Seq<Datagram>, i: int, j: int)
    requires
        0 <= i < data.len(),
        0 <= j <= data[i].samplev5@.len(),
    ensures
        ({
            let seen = observations(data.take(i)) + sample_observations(
                data[i],
                data[i].samplev5@.take(j),
            );
            seen.len() <= observations(data).len() && observations(data).take(seen.len() as int)
                == seen
        }),
{
    lemma_observations_split(data, i + 1);
    assert(data.take(i + 1).drop_last() =~= data.take(i));
    lemma_sample_observations_split(data[i], data[i].samplev5@, j);
}

/// The endpoints of a sample and the tag of their address family.
fn classify(s: &SampleV5) -> (found: Option<(&String, &String, &'static str)>)
    ensures
        match found {
            Some((source, target, ntype)) => sample_endpoints(*s) == Some(
                (source@, target@, ntype@),
            ),
            None => sample_endpoints(*s) is None,
        },
{
    match (&s.srcIP, &s.dstIP) {
        (Some(source), Some(target)) => {
            return Some((source, target, "ipv4"));
        },
        _ => {},
    }
    match (&s.srcIP6, &s.dstIP6) {
        (Some(source), Some(target)) => {
            return Some((source, target, "ipv6"));
        },
        _ => {},
    }
    match (&s.srcMAC, &s.dstMAC) {
        (Some(source), Some(target)) => Some((source, target, "mac")),
        _ => None,
    }
}

/// The ports of a sample: UDP before TCP, -1 where neither pair is whole.
fn ports(s: &SampleV5) -> (pair: (i32, i32))
    ensures
        (pair.0 as int, pair.1 as int) == sample_ports(*s),
{
    match (s.UDPSrcPort, s.UDPDstPort) {
        (Some(source), Some(target)) => {
            return (source, target);
        },
        _ => {},
    }
    match (s.TCPSrcPort, s.TCPDstPort) {
        (Some(source), Some(target)) => (source, target),
        _ => (-1, -1),
    }
}

/// Aggregates the samples of a sequence of datagrams into a map: one edge
/// per `source=>target` key. The first sample of a key gives the edge its
/// fields and the size `packet size * skip count`; each later sample of the
/// key adds its packet size alone. Samples without a complete address pair
/// are left out. Fails if a running total leaves the 32-bit range.
pub fn build_graph(data: &Vec<Datagram>) -> (built: Result<FlowMap, FlowError>)
    ensures
        match built {
            Ok(fm) => fm@ == aggregate(data@) && tally_fits(observations(data@)),
            Err(e) => e == FlowError::SizeOverflow && !tally_fits(observations(data@)),
        },
{
    let mut fm = FlowMap::new();
    let ghost all = observations(data@);
    let mut i: usize = 0;
    while i < data.len()
        invariant
            i <= data@.len(),
            all == observations(data@),
            fm@ == tally(observations(data@.take(i as int))),
            observations(data@.take(i as int)).len() <= all.len(),
            forall|n: int|
                0 <= n <= observations(data@.take(i as int)).len() ==> all_fit(
                    #[trigger] tally(all.take(n)),
                ),
        decreases data@.len() - i,
    {
        let dg = &data[i];
        let ghost before = observations(data@.take(i as int));
        let mut j: usize = 0;
        while j < dg.samplev5.len()
            invariant
                i < data@.len(),
                *dg == data@[i as int],
                j <= dg.samplev5@.len(),
                all == observations(data@),
                before == observations(data@.take(i as int)),
                fm@ == tally(before + sample_observations(*dg, dg.samplev5@.take(j as int))),
                forall|n: int|
                    0 <= n <= (before + sample_observations(
                        *dg,
                        dg.samplev5@.take(j as int),
                    )).len() ==> all_fit(#[trigger] tally(all.take(n))),
            decreases dg.samplev5@.len() - j,
        {
            let s = &dg.samplev5[j];
            let ghost seen = before + sample_observations(*dg, dg.samplev5@.take(j as int));
            proof {
                assert(dg.samplev5@.take(j + 1).drop_last() =~= dg.samplev5@.take(j as int));
                lemma_observations_prefix(data@, i as int, j as int);
                lemma_observations_prefix(data@, i as int, j + 1);
            }
            match classify(s) {
                Some((source, target, ntype)) => {
                    let ghost o = sample_observation(*dg, *s)->0;
                    proof {
                        assert(before + sample_observations(*dg, dg.samplev5@.take(j + 1))
                            =~= seen.push(o));
                        lemma_tally_push(seen, o);
                    }
                    let key = make_key(source, target);
                    match fm.find(&key) {
                        Some(at) => {
                            if fm.grow(at, s.sampledPacketSize).is_err() {
                                assert(!all_fit(tally(all.take(seen.len() as int + 1)))) by {
                                    assert(!tally(seen.push(o))[at as int].fits());
                                }
                                return Err(FlowError::SizeOverflow);
                            }
                        },
                        None => {
                            match s.sampledPacketSize.checked_mul(s.meanSkipCount) {
                                Some(size) => {
                                    let (srcport, dstport) = ports(s);
                                    fm.append(
                                        FlowDirection {
                                            agent: dg.agent.clone(),
                                            utc: dg.unixSecondsUTC,
                                            source: source.clone(),
                                            target: target.clone(),
                                            srcport,
                                            dstport,
                                            ntype: ntype.to_owned(),
                                            size,
                                        },
                                    );
                                },
                                None => {
                                    assert(!all_fit(tally(all.take(seen.len() as int + 1)))) by {
                                        assert(!tally(seen.push(o))[fm@.len() as int].fits());
                                    }
                                    return Err(FlowError::SizeOverflow);
                                },
                            }
                        },
                    }
                },
                None => {},
            }
            j += 1;
        }
        proof {
            assert(dg.samplev5@.take(j as int) =~= dg.samplev5@);
            assert(data@.take(i + 1).drop_last() =~= data@.take(i as int));
            lemma_observations_prefix(data@, i as int, j as int);
        }
        i += 1;
    }
    proof {
        assert(data@.take(data@.len() as int) =~= data@);
        assert forall|n: int| 0 <= n <= all.len() implies all_fit(#[trigger] tally(all.take(n))) by {}
    }
    Ok(fm)
}

} // verus!
