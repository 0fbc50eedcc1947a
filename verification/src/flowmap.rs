//! The edge map of one aggregation pass: at most one edge per key, kept in
//! the order in which the keys were first seen.

use vstd::hash_map::StringHashMap;
use vstd::prelude::*;
use crate::model::{Edge, FlowDirection};

verus! {

/// What can go wrong while edges are aggregated or turned into a graph.
#[derive(Debug, Clone, Copy, PartialEq, Eq, Structural)]
pub enum FlowError {
    /// A cumulative size left the range of the 32-bit field that holds it.
    SizeOverflow,
    /// There are more distinct endpoints than 32-bit node ids.
    TooManyNodes,
}

impl FlowError {
    /// The sentence that names the failure.
    pub open spec fn text(self) -> Seq<char> {
        match self {
            FlowError::SizeOverflow => "aggregated size does not fit in 32 bits"@,
            FlowError::TooManyNodes => "more endpoints than node ids"@,
        }
    }

    /// A sentence that names the failure.
    pub fn message(&self) -> (text: String)
        ensures
            text@ == self.text(),
    {
        match self {
            FlowError::SizeOverflow => "aggregated size does not fit in 32 bits".to_owned(),
            FlowError::TooManyNodes => "more endpoints than node ids".to_owned(),
        }
    }
}

/// No two edges of the sequence share a key.
pub open spec fn unique_keys(edges: Seq<Edge>) -> bool {
    forall|i: int, j: int|
        0 <= i < j < edges.len() ==> (#[trigger] edges[i]).key() != (#[trigger] edges[j]).key()
}

/// Some edge of the sequence has this key.
pub open spec fn has_key(edges: Seq<Edge>, key: Seq<char>) -> bool {
    exists|i: int| 0 <= i < edges.len() && (#[trigger] edges[i]).key() == key
}

/// The position of an edge with this key, where there is one.
pub open spec fn index_of(edges: Seq<Edge>, key: Seq<char>) -> int {
    choose|i: int| 0 <= i < edges.len() && (#[trigger] edges[i]).key() == key
}

/// Every size in the sequence fits its 32-bit field.
pub open spec fn all_fit(edges: Seq<Edge>) -> bool {
    forall|i: int| 0 <= i < edges.len() ==> (#[trigger] edges[i]).fits()
}

/// One more observation folded into the edges seen so far. A key seen before
/// keeps its first edge and only grows by `increment`; a new key is appended
/// with `edge` as it stands.
pub open spec fn absorb(edges: Seq<Edge>, edge: Edge, increment: int) -> Seq<Edge> {
    if has_key(edges, edge.key()) {
        let i = index_of(edges, edge.key());
        edges.update(i, edges[i].grown(increment))
    } else {
        edges.push(edge)
    }
}

/// Folding an observation in keeps the keys distinct, adds at most one edge,
/// and leaves every key that was there in its place.
pub proof fn lemma_absorb_keeps_keys(edges: Seq<Edge>, edge: Edge, increment: int)
    requires
        unique_keys(edges),
    ensures
        unique_keys(absorb(edges, edge, increment)),
        has_key(absorb(edges, edge, increment), edge.key()),
        forall|i: int|
            0 <= i < edges.len() ==> (#[trigger] absorb(edges, edge, increment)[i]).key()
                == edges[i].key(),
        edges.len() <= absorb(edges, edge, increment).len() <= edges.len() + 1,
{
    let after = absorb(edges, edge, increment);
    if has_key(edges, edge.key()) {
        let i = index_of(edges, edge.key());
        assert(after[i].key() == edge.key());
    } else {
        assert(after[edges.len() as int].key() == edge.key());
        assert forall|i: int, j: int| 0 <= i < j < after.len() implies (#[trigger] after[i]).key()
            != (#[trigger] after[j]).key() by {}
    }
}

/// The edges that are left when every edge whose position carries a raised
/// flag is taken out. Positions past the end of `flagged` count as not
/// flagged.
pub open spec fn without_flagged(edges: Seq<Edge>, flagged: Seq<bool>) -> Seq<Edge>
    decreases edges.len(),
{
    if edges.len() == 0 {
        Seq::empty()
    } else {
        let rest = without_flagged(edges.drop_last(), flagged);
        if edges.len() <= flagged.len() && flagged[edges.len() - 1] {
            rest
        } else {
            rest.push(edges.last())
        }
    }
}

/// Taking edges out leaves no key that was not there, and keeps distinct
/// keys distinct.
pub proof fn lemma_without_flagged_keys(edges: Seq<Edge>, flagged: Seq<bool>)
    requires
        unique_keys(edges),
    ensures
        unique_keys(without_flagged(edges, flagged)),
        without_flagged(edges, flagged).len() <= edges.len(),
        forall|key: Seq<char>| #[trigger]
            has_key(without_flagged(edges, flagged), key) ==> has_key(edges, key),
    decreases edges.len(),
{
    let left = without_flagged(edges, flagged);
    if edges.len() > 0 {
        let shorter = edges.drop_last();
        let rest = without_flagged(shorter, flagged);
        assert(unique_keys(shorter)) by {
            assert forall|i: int, j: int| 0 <= i < j < shorter.len() implies (#[trigger] shorter[i]).key()
                != (#[trigger] shorter[j]).key() by {}
        }
        lemma_without_flagged_keys(shorter, flagged);
        assert forall|key: Seq<char>| has_key(left, key) implies has_key(edges, key) by {
            let i = index_of(left, key);
            if i < rest.len() {
                assert(has_key(rest, key));
            }
        }
        assert forall|i: int, j: int| 0 <= i < j < left.len() implies (#[trigger] left[i]).key()
            != (#[trigger] left[j]).key() by {
            if j >= rest.len() {
                assert(has_key(rest, left[i].key()));
            }
        }
    } else {
        assert forall|key: Seq<char>| !has_key(left, key) by {}
    }
}

/// The edges that are left of a first stretch open the edges that are left
/// of the whole, so they carry distinct keys where the whole does.
pub proof fn lemma_without_flagged_prefix(edges: Seq<Edge>, flagged: Seq<bool>, n: int)
    requires
        0 <= n <= edges.len(),
        unique_keys(without_flagged(edges, flagged)),
    ensures
        without_flagged(edges.take(n), flagged).is_prefix_of(without_flagged(edges, flagged)),
        unique_keys(without_flagged(edges.take(n), flagged)),
    decreases edges.len() - n,
{
    let part = without_flagged(edges.take(n), flagged);
    if n == edges.len() {
        assert(edges.take(n) =~= edges);
    } else {
        let longer = without_flagged(edges.take(n + 1), flagged);
        lemma_without_flagged_prefix(edges, flagged, n + 1);
        assert(edges.take(n + 1).drop_last() =~= edges.take(n));
        assert(part.is_prefix_of(longer));
    }
    assert forall|i: int, j: int| 0 <= i < j < part.len() implies (#[trigger] part[i]).key()
        != (#[trigger] part[j]).key() by {}
}

/// One entry of the map: the edge and the key it is found by.
struct Slot {
    key: String,
    edge: FlowDirection,
}

/// The edges of one aggregation pass, one per key, in first-seen order.
pub struct FlowMap {
    slots: Vec<Slot>,
    index: StringHashMap<usize>,
}

/// The values of the edges in the slots.
spec fn edges_of(slots: Seq<Slot>) -> Seq<Edge> {
    slots.map_values(|slot: Slot| slot.edge@)
}

/// Every slot carries the key of its edge.
spec fn keyed(slots: Seq<Slot>) -> bool {
    forall|i: int| 0 <= i < slots.len() ==> (#[trigger] slots[i]).key@ == slots[i].edge@.key()
}

/// The index leads from every key to the slot that carries it, and from
/// nothing else to anywhere.
spec fn indexed(slots: Seq<Slot>, index: Map<Seq<char>, usize>) -> bool {
    &&& forall|i: int|
        0 <= i < slots.len() ==> index.contains_key((#[trigger] slots[i]).key@)
            && index[slots[i].key@] == i
    &&& forall|key: Seq<char>| #[trigger]
        index.contains_key(key) ==> index[key] < slots.len() && slots[index[key] as int].key@
            == key
}

/// Slots that are keyed and indexed carry distinct keys.
proof fn lemma_indexed_unique(slots: Seq<Slot>, index: Map<Seq<char>, usize>)
    requires
        keyed(slots),
        indexed(slots, index),
    ensures
        unique_keys(edges_of(slots)),
{
    let edges = edges_of(slots);
    assert forall|i: int, j: int| 0 <= i < j < edges.len() implies (#[trigger] edges[i]).key()
        != (#[trigger] edges[j]).key() by {}
}

impl View for FlowMap {
    type V = Seq<Edge>;

    /// The edges, in the order in which their keys were first seen.
    closed spec fn view(&self) -> Seq<Edge> {
        edges_of(self.slots@)
    }
}

impl FlowMap {
    #[verifier::type_invariant]
    spec fn well_formed(self) -> bool {
        keyed(self.slots@) && indexed(self.slots@, self.index@)
    }

    /// The sizes of a map fit their 32-bit fields.
    pub proof fn lemma_fits(&self)
        ensures
            all_fit(self@),
    {
        assert forall|i: int| 0 <= i < self@.len() implies (#[trigger] self@[i]).fits() by {}
    }

    /// The empty map.
    pub fn new() -> (fm: FlowMap)
        ensures
            fm@ == Seq::<Edge>::empty(),
    {
        FlowMap { slots: Vec::new(), index: StringHashMap::new() }
    }

    /// The number of edges.
    pub fn len(&self) -> (n: usize)
        ensures
            n == self@.len(),
            unique_keys(self@),
            all_fit(self@),
    {
        proof {
            use_type_invariant(self);
        }
        self.slots.len()
    }

    /// Whether the map holds no edge.
    pub fn is_empty(&self) -> (empty: bool)
        ensures
            empty == (self@.len() == 0),
    {
        self.slots.len() == 0
    }

    /// The edge at a position of the first-seen order.
    pub fn edge(&self, i: usize) -> (edge: &FlowDirection)
        requires
            i < self@.len(),
        ensures
            edge@ == self@[i as int],
    {
        &self.slots[i].edge
    }

    /// The position of the edge with this key.
    pub fn find(&self, key: &str) -> (found: Option<usize>)
        ensures
            match found {
                Some(i) => i < self@.len() && self@[i as int].key() == key@ && i == index_of(
                    self@,
                    key@,
                ),
                None => !has_key(self@, key@),
            },
            found is Some <==> has_key(self@, key@),
    {
        proof {
            use_type_invariant(self);
            lemma_indexed_unique(self.slots@, self.index@);
        }
        match self.index.get(key) {
            Some(at) => {
                proof {
                    let chosen = index_of(self@, key@);
                    assert(self@[*at as int].key() == key@);
                    if chosen < *at {
                        assert(self@[chosen].key() != self@[*at as int].key());
                    } else if chosen > *at {
                        assert(self@[*at as int].key() != self@[chosen].key());
                    }
                }
                Some(*at)
            },
            None => {
                assert(!has_key(self@, key@));
                None
            },
        }
    }

    /// The edge with this key.
    pub fn get(&self, key: &str) -> (found: Option<&FlowDirection>)
        ensures
            match found {
                Some(edge) => has_key(self@, key@) && edge@ == self@[index_of(self@, key@)],
                None => !has_key(self@, key@),
            },
    {
        match self.find(key) {
            Some(i) => Some(&self.slots[i].edge),
            None => None,
        }
    }

    /// Whether an edge with this key is in the map.
    pub fn contains_key(&self, key: &str) -> (present: bool)
        ensures
            present == has_key(self@, key@),
    {
        self.find(key).is_some()
    }

    /// Adds `amount` to the size of the edge at position `i`, unless the sum
    /// leaves the 32-bit range: then nothing changes.
    pub(crate) fn grow(&mut self, i: usize, amount: i32) -> (done: Result<(), FlowError>)
        requires
            i < old(self)@.len(),
        ensures
            unique_keys(final(self)@),
            match done {
                Ok(_) => final(self)@ == old(self)@.update(
                    i as int,
                    old(self)@[i as int].grown(amount as int),
                ) && old(self)@[i as int].grown(amount as int).fits(),
                Err(e) => e == FlowError::SizeOverflow && final(self)@ == old(self)@ && !old(
                    self,
                )@[i as int].grown(amount as int).fits(),
            },
    {
        proof {
            use_type_invariant(&*self);
        }
        match self.slots[i].edge.size.checked_add(amount) {
            Some(sum) => {
                let mut taken = FlowMap::new();
                core::mem::swap(self, &mut taken);
                let FlowMap { slots, index } = taken;
                let mut slots = slots;
                let ghost before = slots@;
                slots[i].edge.size = sum;
                proof {
                    assert(forall|j: int|
                        0 <= j < slots@.len() && j != i ==> slots@[j] == before[j]);
                    assert(edges_of(slots@) =~= old(self)@.update(
                        i as int,
                        old(self)@[i as int].grown(amount as int),
                    ));
                    assert(indexed(slots@, index@)) by {
                        assert forall|j: int| 0 <= j < slots@.len() implies index@.contains_key(
                            (#[trigger] slots@[j]).key@,
                        ) && index@[slots@[j].key@] == j by {}
                        assert forall|key: Seq<char>| #[trigger]
                            index@.contains_key(key) implies index@[key] < slots@.len()
                            && slots@[index@[key] as int].key@ == key by {}
                    }
                }
                *self = FlowMap { slots, index };
                Ok(())
            },
            None => Err(FlowError::SizeOverflow),
        }
    }

    /// Appends an edge whose key is not in the map yet.
    pub(crate) fn append(&mut self, edge: FlowDirection)
        requires
            !has_key(old(self)@, edge@.key()),
        ensures
            final(self)@ == old(self)@.push(edge@),
            unique_keys(final(self)@),
    {
        proof {
            use_type_invariant(&*self);
        }
        let key = edge.key();
        let mut taken = FlowMap::new();
        core::mem::swap(self, &mut taken);
        let FlowMap { slots, index } = taken;
        let mut slots = slots;
        let mut index = index;
        let ghost before = slots@;
        let ghost known = index@;
        let at = slots.len();
        index.insert(key.clone(), at);
        slots.push(Slot { key, edge });
        proof {
            assert(!known.contains_key(edge@.key())) by {
                if known.contains_key(edge@.key()) {
                    let i = known[edge@.key()] as int;
                    assert(edges_of(before)[i].key() == edge@.key());
                }
            }
            assert(keyed(slots@)) by {
                assert forall|j: int| 0 <= j < slots@.len() implies (#[trigger] slots@[j]).key@
                    == slots@[j].edge@.key() by {}
            }
            assert(indexed(slots@, index@)) by {
                assert forall|j: int| 0 <= j < slots@.len() implies index@.contains_key(
                    (#[trigger] slots@[j]).key@,
                ) && index@[slots@[j].key@] == j by {}
                assert forall|key: Seq<char>| #[trigger] index@.contains_key(key) implies index@[key]
                    < slots@.len() && slots@[index@[key] as int].key@ == key by {}
            }
        }
        *self = FlowMap { slots, index };
    }

    /// Folds one observation into the map: a key that is present grows by
    /// `increment`, a new key enters with `edge` as it stands. A sum that
    /// leaves the 32-bit range is refused and changes nothing.
    pub fn record(&mut self, edge: FlowDirection, increment: i32) -> (done: Result<(), FlowError>)
        ensures
            unique_keys(final(self)@),
            match done {
                Ok(_) => final(self)@ == absorb(old(self)@, edge@, increment as int) && all_fit(
                    final(self)@,
                ),
                Err(e) => e == FlowError::SizeOverflow && final(self)@ == old(self)@ && !all_fit(
                    absorb(old(self)@, edge@, increment as int),
                ),
            },
    {
        let key = edge.key();
        let ghost after = absorb(old(self)@, edge@, increment as int);
        match self.find(key.as_str()) {
            Some(i) => {
                let done = self.grow(i, increment);
                proof {
                    if done is Err {
                        assert(!after[i as int].fits());
                    }
                }
                done
            },
            None => {
                self.append(edge);
                Ok(())
            },
        }
    }

    /// Takes out every edge whose position carries a raised flag; the other
    /// edges keep their order.
    pub fn remove_flagged(&mut self, flagged: &Vec<bool>)
        ensures
            final(self)@ == without_flagged(old(self)@, flagged@),
            unique_keys(final(self)@),
    {
        proof {
            use_type_invariant(&*self);
            lemma_without_flagged_keys(old(self)@, flagged@);
        }
        let mut taken = FlowMap::new();
        core::mem::swap(self, &mut taken);
        let FlowMap { slots, index: _ } = taken;
        let ghost before = slots@;
        let ghost edges = edges_of(before);
        let mut kept = FlowMap::new();
        let mut i: usize = 0;
        let n = slots.len();
        for slot in it: slots
            invariant
                it.seq() == before,
                before.len() == n,
                i == it.index(),
                edges == edges_of(before),
                unique_keys(without_flagged(edges, flagged@)),
                kept@ == without_flagged(edges.take(i as int), flagged@),
        {
            proof {
                assert(edges.take(i + 1).drop_last() =~= edges.take(i as int));
                lemma_without_flagged_prefix(edges, flagged@, i + 1);
            }
            if !(i < flagged.len() && flagged[i]) {
                proof {
                    let longer = without_flagged(edges.take(i + 1), flagged@);
                    if has_key(kept@, slot.edge@.key()) {
                        let at = index_of(kept@, slot.edge@.key());
                        assert(longer[at].key() != longer[longer.len() - 1].key());
                    }
                }
                kept.append(slot.edge);
            }
            i += 1;
        }
        proof {
            assert(edges.take(i as int) =~= edges);
        }
        *self = kept;
    }

    /// The edges, in first-seen order, handed over.
    pub fn into_edges(self) -> (edges: Vec<FlowDirection>)
        ensures
            edges@.len() == self@.len(),
            forall|i: int| 0 <= i < edges@.len() ==> (#[trigger] edges@[i])@ == self@[i],
    {
        let ghost before = self.slots@;
        let mut edges: Vec<FlowDirection> = Vec::new();
        let FlowMap { slots, index: _ } = self;
        for slot in it: slots
            invariant
                it.seq() == before,
                edges@.len() == it.index(),
                forall|i: int| 0 <= i < edges@.len() ==> (#[trigger] edges@[i])@ == before[i].edge@,
        {
            edges.push(slot.edge);
        }
        edges
    }
}

} // verus!
