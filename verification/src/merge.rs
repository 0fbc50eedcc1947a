//! Merging two edge maps by key, and how aggregation in parts relates to
//! aggregation in one pass.

use vstd::prelude::*;
use crate::aggregate::{
    aggregate, aggregate_rows, lemma_observations_split, lemma_tally_unique, observations,
    row_observations, tally, Observation,
};
use crate::flowmap::{
    absorb, all_fit, has_key, index_of, lemma_absorb_keeps_keys, unique_keys, FlowError, FlowMap,
};
use crate::model::{flow_key, Datagram, Edge, Flow};

verus! {

/// The edges of `left` with those of `right` merged in by key, one after
/// the other: an edge whose key `left` knows adds its size to the edge
/// there; an edge with a new key is appended.
pub open spec fn merge_edges(left: Seq<Edge>, right: Seq<Edge>) -> Seq<Edge>
    decreases right.len(),
{
    if right.len() == 0 {
        left
    } else {
        absorb(merge_edges(left, right.drop_last()), right.last(), right.last().size)
    }
}

/// Every intermediate result of merging `right` into `left` fits.
pub open spec fn merge_fits(left: Seq<Edge>, right: Seq<Edge>) -> bool {
    forall|n: int| 0 <= n <= right.len() ==> all_fit(#[trigger] merge_edges(left, right.take(n)))
}

/// Merges `right` into `left` by key. Fails if a sum leaves the 32-bit
/// range.
pub fn merge(left: FlowMap, right: &FlowMap) -> (merged: Result<FlowMap, FlowError>)
    ensures
        match merged {
            Ok(fm) => fm@ == merge_edges(left@, right@) && merge_fits(left@, right@),
            Err(e) => e == FlowError::SizeOverflow && !merge_fits(left@, right@),
        },
{
    let mut fm = left;
    let mut i: usize = 0;
    proof {
        fm.lemma_fits();
    }
    while i < right.len()
        invariant
            i <= right@.len(),
            fm@ == merge_edges(left@, right@.take(i as int)),
            forall|n: int| 0 <= n <= i ==> all_fit(#[trigger] merge_edges(left@, right@.take(n))),
        decreases right@.len() - i,
    {
        let edge = right.edge(i);
        proof {
            assert(right@.take(i + 1).drop_last() =~= right@.take(i as int));
        }
        if fm.record(edge.clone(), edge.size).is_err() {
            assert(!all_fit(merge_edges(left@, right@.take(i + 1))));
            return Err(FlowError::SizeOverflow);
        }
        i += 1;
    }
    proof {
        assert(right@.take(right@.len() as int) =~= right@);
    }
    Ok(fm)
}

/// Folding in an observation whose key sits at position `i` grows the edge
/// there and changes nothing else.
pub proof fn lemma_absorb_known(edges: Seq<Edge>, edge: Edge, increment: int, i: int)
    requires
        unique_keys(edges),
        0 <= i < edges.len(),
        edges[i].key() == edge.key(),
    ensures
        absorb(edges, edge, increment) == edges.update(i, edges[i].grown(increment)),
{
}

/// Two observations of different keys, one of them of a key that is known,
/// can be folded in in either order.
proof fn lemma_absorb_commutes(edges: Seq<Edge>, a: Edge, da: int, b: Edge, db: int)
    requires
        unique_keys(edges),
        has_key(edges, a.key()),
        a.key() != b.key(),
    ensures
        absorb(absorb(edges, a, da), b, db) == absorb(absorb(edges, b, db), a, da),
{
    let p = index_of(edges, a.key());
    let first = edges.update(p, edges[p].grown(da));
    if has_key(edges, b.key()) {
        let q = index_of(edges, b.key());
        lemma_absorb_known(first, b, db, q);
        let second = edges.update(q, edges[q].grown(db));
        lemma_absorb_known(second, a, da, p);
    } else {
        let second = edges.push(b);
        lemma_absorb_known(second, a, da, p);
    }
}

/// Growing a known key in two steps is growing it by the sum.
proof fn lemma_absorb_twice(edges: Seq<Edge>, a: Edge, da: int, b: Edge, db: int)
    requires
        unique_keys(edges),
        a.key() == b.key(),
    ensures
        has_key(edges, a.key()) ==> absorb(absorb(edges, a, da), b, db) == absorb(
            edges,
            a,
            da + db,
        ),
        !has_key(edges, a.key()) ==> absorb(absorb(edges, a, da), b, db) == edges.push(
            a.grown(db),
        ),
{
    lemma_absorb_keeps_keys(edges, a, da);
}

/// A merge has distinct keys, and holds exactly the keys of its two sides.
pub proof fn lemma_merge_keys(left: Seq<Edge>, right: Seq<Edge>)
    requires
        unique_keys(left),
    ensures
        unique_keys(merge_edges(left, right)),
        forall|key: Seq<char>|
            has_key(merge_edges(left, right), key) <==> has_key(left, key) || has_key(right, key),
    decreases right.len(),
{
    if right.len() > 0 {
        let before = merge_edges(left, right.drop_last());
        let after = merge_edges(left, right);
        lemma_merge_keys(left, right.drop_last());
        lemma_absorb_keys(before, right.last(), right.last().size);
        assert forall|key: Seq<char>| has_key(after, key) <==> has_key(left, key) || has_key(
            right,
            key,
        ) by {
            if has_key(right, key) {
                let i = index_of(right, key);
                if i < right.len() - 1 {
                    assert(right.drop_last()[i].key() == key);
                }
            }
            if has_key(right.drop_last(), key) {
                let i = index_of(right.drop_last(), key);
                assert(right[i].key() == key);
            }
        }
    } else {
        assert forall|key: Seq<char>| !has_key(right, key) by {}
    }
}

/// After an observation is folded in, the keys are those that were there
/// and the key of the observation.
pub proof fn lemma_absorb_keys(edges: Seq<Edge>, edge: Edge, increment: int)
    requires
        unique_keys(edges),
    ensures
        unique_keys(absorb(edges, edge, increment)),
        forall|key: Seq<char>|
            has_key(absorb(edges, edge, increment), key) <==> has_key(edges, key) || key
                == edge.key(),
{
    let after = absorb(edges, edge, increment);
    lemma_absorb_keeps_keys(edges, edge, increment);
    assert forall|key: Seq<char>| has_key(after, key) <==> has_key(edges, key) || key
        == edge.key() by {
        if has_key(edges, key) {
            let i = index_of(edges, key);
            assert(after[i].key() == key);
        }
    }
}

/// A tally holds exactly the keys of its observations.
pub proof fn lemma_tally_keys(observations: Seq<Observation>)
    ensures
        unique_keys(tally(observations)),
        forall|key: Seq<char>|
            has_key(tally(observations), key) <==> exists|j: int|
                0 <= j < observations.len() && (#[trigger] observations[j]).edge.key() == key,
    decreases observations.len(),
{
    if observations.len() > 0 {
        let shorter = observations.drop_last();
        lemma_tally_keys(shorter);
        lemma_absorb_keys(tally(shorter), observations.last().edge, observations.last().increment);
        assert forall|key: Seq<char>|
            has_key(tally(observations), key) <==> exists|j: int|
                0 <= j < observations.len() && (#[trigger] observations[j]).edge.key()
                    == key by {
            if has_key(tally(shorter), key) {
                let j = choose|j: int|
                    0 <= j < shorter.len() && (#[trigger] shorter[j]).edge.key() == key;
                assert(observations[j].edge.key() == key);
            }
            if exists|j: int|
                0 <= j < observations.len() && (#[trigger] observations[j]).edge.key() == key {
                let j = choose|j: int|
                    0 <= j < observations.len() && (#[trigger] observations[j]).edge.key() == key;
                if j < shorter.len() {
                    assert(shorter[j].edge.key() == key);
                }
            }
        }
    } else {
        assert forall|key: Seq<char>| !has_key(tally(observations), key) by {}
    }
}

/// Merging in a map in which one edge has grown by `amount` gives the merge
/// with the edge of that key grown by `amount`.
proof fn lemma_merge_grown(left: Seq<Edge>, right: Seq<Edge>, at: int, amount: int)
    requires
        unique_keys(left),
        unique_keys(right),
        0 <= at < right.len(),
    ensures
        merge_edges(left, right.update(at, right[at].grown(amount))) == absorb(
            merge_edges(left, right),
            right[at],
            amount,
        ),
    decreases right.len(),
{
    let changed = right.update(at, right[at].grown(amount));
    let shorter = right.drop_last();
    let before = merge_edges(left, shorter);
    let last = right.last();
    lemma_merge_keys(left, shorter);
    assert(unique_keys(shorter)) by {
        assert forall|i: int, j: int| 0 <= i < j < shorter.len() implies (#[trigger] shorter[i]).key()
            != (#[trigger] shorter[j]).key() by {}
    }
    if at == right.len() - 1 {
        assert(changed.drop_last() =~= shorter);
        // one step with the grown edge against two steps with the old one
        lemma_absorb_twice(before, last, last.size, last, amount);
    } else {
        assert(changed.drop_last() =~= shorter.update(at, shorter[at].grown(amount)));
        lemma_merge_grown(left, shorter, at, amount);
        assert(has_key(before, right[at].key())) by {
            assert(has_key(shorter, right[at].key()));
        }
        lemma_absorb_commutes(before, right[at], amount, last, last.size);
    }
}

/// Whether two parts can be aggregated apart: every observation that brings
/// a key into the second part, where the first part knows that key, adds as
/// much as it enters with.
///
/// Aggregated on its own, the second part lets the first observation of
/// each of its keys enter with its full first size; in one pass over both
/// parts the same observation only adds its increment. The two agree where
/// the increment and the first size are the same.
pub open spec fn parts_agree(first: Seq<Observation>, second: Seq<Observation>) -> bool {
    forall|k: int|
        0 <= k < second.len() && has_key(tally(first), (#[trigger] second[k]).edge.key())
            && !has_key(tally(second.take(k)), second[k].edge.key()) ==> second[k].increment
            == second[k].edge.size
}

/// Aggregating two parts one after the other equals aggregating each part
/// on its own and merging the results by key, whenever `parts_agree`.
pub proof fn lemma_tally_in_parts(first: Seq<Observation>, second: Seq<Observation>)
    requires
        parts_agree(first, second),
    ensures
        tally(first + second) == merge_edges(tally(first), tally(second)),
    decreases second.len(),
{
    if second.len() > 0 {
        let shorter = second.drop_last();
        let o = second.last();
        assert(parts_agree(first, shorter)) by {
            assert forall|j: int|
                0 <= j < shorter.len() && has_key(tally(first), (#[trigger] shorter[j]).edge.key())
                    && !has_key(
                    tally(shorter.take(j)),
                    shorter[j].edge.key(),
                ) implies shorter[j].increment == shorter[j].edge.size by {
                assert(shorter.take(j) =~= second.take(j));
            }
        }
        lemma_tally_in_parts(first, shorter);
        assert((first + second).drop_last() =~= first + shorter);
        let left = tally(first);
        let part = tally(shorter);
        lemma_tally_unique(first);
        lemma_tally_unique(shorter);
        lemma_merge_keys(left, part);
        if has_key(part, o.edge.key()) {
            let at = index_of(part, o.edge.key());
            lemma_merge_grown(left, part, at, o.increment);
        } else {
            assert(part.push(o.edge).drop_last() =~= part);
        }
    }
}

/// For persisted rows, aggregation in parts always agrees with aggregation
/// in one pass: aggregating `first` and `second` apart and merging by key
/// gives what aggregating `first` followed by `second` gives.
pub proof fn lemma_rows_in_parts(first: Seq<Flow>, second: Seq<Flow>)
    ensures
        aggregate_rows(first + second) == merge_edges(
            aggregate_rows(first),
            aggregate_rows(second),
        ),
{
    assert(row_observations(first + second) =~= row_observations(first) + row_observations(
        second,
    ));
    lemma_tally_in_parts(row_observations(first), row_observations(second));
}

/// For datagrams, aggregation in parts agrees with aggregation in one pass
/// where `parts_agree`: where a key of the second part is known to the
/// first, the sample that brings it into the second part must weigh
/// `packet size * skip count` as much as its packet size alone.
pub proof fn lemma_datagrams_in_parts(first: Seq<Datagram>, second: Seq<Datagram>)
    requires
        parts_agree(observations(first), observations(second)),
    ensures
        aggregate(first + second) == merge_edges(aggregate(first), aggregate(second)),
{
    lemma_observations_split(first + second, first.len() as int);
    assert((first + second).take(first.len() as int) =~= first);
    assert((first + second).skip(first.len() as int) =~= second);
    lemma_tally_in_parts(observations(first), observations(second));
}

/// The size that the edges hold under a key: zero where no edge has it.
pub open spec fn size_at(edges: Seq<Edge>, key: Seq<char>) -> int {
    if has_key(edges, key) {
        edges[index_of(edges, key)].size
    } else {
        0
    }
}

/// What an observation adds to the size under a key: nothing under another
/// key, its increment where its key is known, its first size where not.
pub open spec fn added(edges: Seq<Edge>, edge: Edge, increment: int, key: Seq<char>) -> int {
    if key != edge.key() {
        0
    } else if has_key(edges, key) {
        increment
    } else {
        edge.size
    }
}

/// Folding an observation in adds to the size under its key and to no
/// other.
pub proof fn lemma_absorb_sizes(edges: Seq<Edge>, edge: Edge, increment: int, key: Seq<char>)
    requires
        unique_keys(edges),
    ensures
        size_at(absorb(edges, edge, increment), key) == size_at(edges, key) + added(
            edges,
            edge,
            increment,
            key,
        ),
{
    lemma_absorb_keys(edges, edge, increment);
}

/// Merging adds sizes by key: under every key the merge holds the sum of
/// what its two sides hold.
pub proof fn lemma_merge_sizes(left: Seq<Edge>, right: Seq<Edge>, key: Seq<char>)
    requires
        unique_keys(left),
        unique_keys(right),
    ensures
        size_at(merge_edges(left, right), key) == size_at(left, key) + size_at(right, key),
    decreases right.len(),
{
    if right.len() > 0 {
        let shorter = right.drop_last();
        let last = right.last();
        let end = right.len() - 1;
        assert(unique_keys(shorter)) by {
            assert forall|i: int, j: int| 0 <= i < j < shorter.len() implies (#[trigger] shorter[i]).key()
                != (#[trigger] shorter[j]).key() by {}
        }
        lemma_merge_sizes(left, shorter, key);
        lemma_merge_keys(left, shorter);
        lemma_absorb_sizes(merge_edges(left, shorter), last, last.size, key);
        // the last edge of the right side is the only one under its key
        if has_key(shorter, key) {
            let at = index_of(shorter, key);
            assert(right[at].key() == key);
        } else if has_key(right, key) {
            let at = index_of(right, key);
            if at < end {
                assert(shorter[at].key() == key);
            }
        }
    }
}

/// Merging is commutative in size: under every key both orders hold the
/// same size. (The other fields are those of the side that came first.)
pub proof fn lemma_merge_commutes_in_size(left: Seq<Edge>, right: Seq<Edge>, key: Seq<char>)
    requires
        unique_keys(left),
        unique_keys(right),
    ensures
        size_at(merge_edges(left, right), key) == size_at(merge_edges(right, left), key),
{
    lemma_merge_sizes(left, right, key);
    lemma_merge_sizes(right, left, key);
}

/// Merging is associative in size: under every key it does not matter
/// which two of three maps are merged first.
pub proof fn lemma_merge_associates_in_size(
    first: Seq<Edge>,
    second: Seq<Edge>,
    third: Seq<Edge>,
    key: Seq<char>,
)
    requires
        unique_keys(first),
        unique_keys(second),
        unique_keys(third),
    ensures
        size_at(merge_edges(merge_edges(first, second), third), key) == size_at(
            merge_edges(first, merge_edges(second, third)),
            key,
        ),
{
    lemma_merge_keys(first, second);
    lemma_merge_keys(second, third);
    lemma_merge_sizes(merge_edges(first, second), third, key);
    lemma_merge_sizes(first, second, key);
    lemma_merge_sizes(first, merge_edges(second, third), key);
    lemma_merge_sizes(second, third, key);
}

/// The sizes of the rows of one direction, added up.
pub open spec fn total_size(rows: Seq<Flow>, key: Seq<char>) -> int
    decreases rows.len(),
{
    if rows.len() == 0 {
        0
    } else if flow_key(rows.last().src@, rows.last().dst@) == key {
        total_size(rows.drop_last(), key) + rows.last().size
    } else {
        total_size(rows.drop_last(), key)
    }
}

/// Under every key, the aggregate of persisted rows holds the sum of the
/// sizes of the rows of that key.
pub proof fn lemma_rows_add_up(rows: Seq<Flow>, key: Seq<char>)
    ensures
        size_at(aggregate_rows(rows), key) == total_size(rows, key),
    decreases rows.len(),
{
    if rows.len() > 0 {
        let shorter = rows.drop_last();
        lemma_rows_add_up(shorter, key);
        assert(row_observations(rows).drop_last() =~= row_observations(shorter));
        lemma_tally_unique(row_observations(shorter));
        lemma_absorb_sizes(
            aggregate_rows(shorter),
            row_observations(rows).last().edge,
            rows.last().size as int,
            key,
        );
    }
}

/// The increments of the observations of one key, added up.
pub open spec fn increments(observations: Seq<Observation>, key: Seq<char>) -> int
    decreases observations.len(),
{
    if observations.len() == 0 {
        0
    } else if observations.last().edge.key() == key {
        increments(observations.drop_last(), key) + observations.last().increment
    } else {
        increments(observations.drop_last(), key)
    }
}

/// The increments of two runs of observations add up.
pub proof fn lemma_increments_add(first: Seq<Observation>, second: Seq<Observation>, key: Seq<char>)
    ensures
        increments(first + second, key) == increments(first, key) + increments(second, key),
    decreases second.len(),
{
    if second.len() > 0 {
        lemma_increments_add(first, second.drop_last(), key);
        assert((first + second).drop_last() =~= first + second.drop_last());
    }
}

/// Observations of other keys add nothing under a key.
pub proof fn lemma_increments_none(observations: Seq<Observation>, key: Seq<char>)
    requires
        !has_key(tally(observations), key),
    ensures
        increments(observations, key) == 0,
    decreases observations.len(),
{
    if observations.len() > 0 {
        let shorter = observations.drop_last();
        lemma_tally_unique(shorter);
        lemma_absorb_keys(tally(shorter), observations.last().edge, observations.last().increment);
        lemma_increments_none(shorter, key);
    }
}

/// Under a key that is known, further observations add their increments.
pub proof fn lemma_known_key_grows(
    first: Seq<Observation>,
    second: Seq<Observation>,
    key: Seq<char>,
)
    requires
        has_key(tally(first), key),
    ensures
        has_key(tally(first + second), key),
        size_at(tally(first + second), key) == size_at(tally(first), key) + increments(
            second,
            key,
        ),
    decreases second.len(),
{
    if second.len() > 0 {
        let shorter = second.drop_last();
        let o = second.last();
        lemma_known_key_grows(first, shorter, key);
        assert((first + second).drop_last() =~= first + shorter);
        lemma_tally_unique(first + shorter);
        lemma_absorb_keys(tally(first + shorter), o.edge, o.increment);
    }
}

/// The size under a key is the first size of the observation that brought
/// the key in, and the increments of the observations of the key after it.
pub proof fn lemma_first_and_later(observations: Seq<Observation>, at: int)
    requires
        0 <= at < observations.len(),
        !has_key(tally(observations.take(at)), observations[at].edge.key()),
    ensures
        size_at(tally(observations), observations[at].edge.key()) == observations[at].edge.size
            + increments(observations.skip(at + 1), observations[at].edge.key()),
        increments(observations, observations[at].edge.key()) == observations[at].increment
            + increments(observations.skip(at + 1), observations[at].edge.key()),
{
    let o = observations[at];
    let key = o.edge.key();
    let before = observations.take(at);
    let upto = observations.take(at + 1);
    let after = observations.skip(at + 1);
    assert(upto.drop_last() =~= before);
    assert(observations =~= upto + after);
    lemma_tally_unique(before);
    lemma_absorb_keys(tally(before), o.edge, o.increment);
    lemma_known_key_grows(upto, after, key);
    lemma_increments_none(before, key);
    lemma_increments_add(upto, after, key);
}

/// Where the parts do not agree, aggregation in parts differs from
/// aggregation in one pass: `parts_agree` leaves out no input on which the
/// two are the same.
pub proof fn lemma_parts_disagree(first: Seq<Observation>, second: Seq<Observation>)
    requires
        !parts_agree(first, second),
    ensures
        tally(first + second) != merge_edges(tally(first), tally(second)),
{
    let k = choose|k: int|
        0 <= k < second.len() && has_key(tally(first), (#[trigger] second[k]).edge.key())
            && !has_key(tally(second.take(k)), second[k].edge.key()) && second[k].increment
            != second[k].edge.size;
    let key = second[k].edge.key();
    lemma_known_key_grows(first, second, key);
    lemma_first_and_later(second, k);
    lemma_tally_unique(first);
    lemma_tally_unique(second);
    lemma_merge_sizes(tally(first), tally(second), key);
}

} // verus!
