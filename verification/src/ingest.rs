//! The ingestion loop, one line at a time: what is to be done after each
//! line of the stream.
//!
//! Every datagram is aggregated and filtered on its own, so each batch holds
//! exactly the edges of the datagram that was just completed. The caller
//! reads the lines and writes the batches; it reports a failed write with
//! `persist_failed`, and the batch is not tried again.

use vstd::prelude::*;
use crate::aggregate::{aggregate, build_graph, observations, tally_fits};
use crate::filter::{denoised, filter_noise};
use crate::flowmap::FlowError;
use crate::model::{Datagram, Edge, FlowDirection};
use crate::parser::{steps, MalformedRecord, Parsed, Parser, Phase};

verus! {

/// What the caller is to do after a line.
#[derive(Debug)]
pub enum Action {
    /// Nothing: read the next line.
    Nothing,
    /// Write these edges as one batch.
    Persist(Vec<FlowDirection>),
    /// Nothing to write: the datagram was rejected because of a line.
    Rejected(MalformedRecord),
    /// Nothing to write: the datagram could not be aggregated.
    Failed(FlowError),
}

/// The state of the ingestion loop: the parser, and how many datagrams were
/// discarded and how many batches were lost so far.
#[derive(Debug)]
pub struct Ingestion {
    pub parser: Parser,
    pub discarded: u64,
    pub lost: u64,
}

/// The values of a sequence of edges.
pub open spec fn edge_views(edges: Seq<FlowDirection>) -> Seq<Edge> {
    edges.map_values(|edge: FlowDirection| edge@)
}

/// The batch of a datagram: its samples aggregated, the noise taken out.
pub open spec fn batch_of(dg: Datagram) -> Seq<Edge> {
    denoised(aggregate(seq![dg]))
}

/// One more, but never past the largest count.
pub open spec fn counted(n: u64) -> u64 {
    if n < u64::MAX {
        (n + 1) as u64
    } else {
        n
    }
}

/// What is to be done about what a line brought to an end, and how many
/// datagrams are discarded after it.
pub open spec fn reacts(parsed: Parsed, discarded: u64, action: Action, after: u64) -> bool {
    match parsed {
        Parsed::Nothing => action is Nothing && after == discarded,
        Parsed::Rejected(e) => action matches Action::Rejected(r) && r == e && after == counted(
            discarded,
        ),
        Parsed::Complete(dg) => if !tally_fits(observations(seq![dg])) {
            action matches Action::Failed(e) && e == FlowError::SizeOverflow && after == counted(
                discarded,
            )
        } else if batch_of(dg).len() == 0 {
            action is Nothing && after == discarded
        } else {
            action matches Action::Persist(batch) && edge_views(batch@) == batch_of(dg) && after
                == discarded
        },
    }
}

/// Counts one more.
fn count(n: u64) -> (m: u64)
    ensures
        m == counted(n),
{
    if n < u64::MAX {
        n + 1
    } else {
        n
    }
}

/// The edges to write for a completed datagram.
pub fn batch(dg: Datagram) -> (built: Result<Vec<FlowDirection>, FlowError>)
    ensures
        match built {
            Ok(edges) => edge_views(edges@) == batch_of(dg) && tally_fits(observations(seq![dg])),
            Err(e) => e == FlowError::SizeOverflow && !tally_fits(observations(seq![dg])),
        },
{
    let mut data: Vec<Datagram> = Vec::new();
    data.push(dg);
    match build_graph(&data) {
        Ok(fm) => {
            let mut fm = fm;
            filter_noise(&mut fm);
            let edges = fm.into_edges();
            Ok(edges)
        },
        Err(e) => Err(e),
    }
}

impl Ingestion {
    /// The state before the first line.
    pub fn new() -> (state: Ingestion)
        ensures
            state.parser.phase == Phase::AwaitBlock,
            state.parser.datagram.is_blank(),
            state.parser.sample.is_blank(),
            state.discarded == 0,
            state.lost == 0,
    {
        Ingestion { parser: Parser::new(), discarded: 0, lost: 0 }
    }

    /// Decides what follows from what a line brought to an end.
    pub fn react(&mut self, parsed: Parsed) -> (action: Action)
        ensures
            reacts(parsed, old(self).discarded, action, final(self).discarded),
            final(self).parser == old(self).parser,
            final(self).lost == old(self).lost,
    {
        match parsed {
            Parsed::Nothing => Action::Nothing,
            Parsed::Rejected(e) => {
                self.discarded = count(self.discarded);
                Action::Rejected(e)
            },
            Parsed::Complete(dg) => match batch(dg) {
                Ok(edges) => if edges.len() == 0 {
                    Action::Nothing
                } else {
                    Action::Persist(edges)
                },
                Err(e) => {
                    self.discarded = count(self.discarded);
                    Action::Failed(e)
                },
            },
        }
    }

    /// Records that a batch could not be written. The batch is lost.
    pub fn persist_failed(&mut self)
        ensures
            final(self).lost == counted(old(self).lost),
            final(self).parser == old(self).parser,
            final(self).discarded == old(self).discarded,
    {
        self.lost = count(self.lost);
    }
}

/// Takes the next line of the stream and says what is to be done: the line
/// moves the parser one step, and what it brought to an end decides the
/// action.
pub fn input_data(state: &mut Ingestion, line: &str) -> (action: Action)
    ensures
        exists|parsed: Parsed| #[trigger]
            steps(old(state).parser, line@, final(state).parser, parsed) && reacts(
                parsed,
                old(state).discarded,
                action,
                final(state).discarded,
            ),
        final(state).lost == old(state).lost,
{
    let parsed = state.parser.feed(line);
    state.react(parsed)
}

} // verus!
