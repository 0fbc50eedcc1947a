//! The order of texts: lexicographic by the bytes of their UTF-8 encoding,
//! which is the order of their characters' code points.

use vstd::prelude::*;
use vstd::utf8::{encode_utf8, encode_utf8_decode_utf8};

verus! {

/// `a` comes before `b`: at the first place where they differ, `a` has the
/// smaller byte, or `a` has ended and `b` has not.
pub open spec fn bytes_before(a: Seq<u8>, b: Seq<u8>) -> bool {
    exists|k: int| #[trigger] differ_at(a, b, k) && (k == a.len() || a[k] < b[k])
}

/// The two sequences agree on their first `k` bytes, `b` goes on after
/// them, and `a` ends there or goes on with another byte.
pub open spec fn differ_at(a: Seq<u8>, b: Seq<u8>, k: int) -> bool {
    &&& 0 <= k <= a.len()
    &&& k < b.len()
    &&& a.take(k) == b.take(k)
    &&& k < a.len() ==> a[k] != b[k]
}

/// The text `a` comes before the text `b`.
pub open spec fn precedes(a: Seq<char>, b: Seq<char>) -> bool {
    bytes_before(encode_utf8(a), encode_utf8(b))
}

/// The texts stand in strictly ascending order.
pub open spec fn ascending(names: Seq<Seq<char>>) -> bool {
    forall|i: int, j: int| 0 <= i < j < names.len() ==> precedes(names[i], names[j])
}

/// How two texts compare.
#[derive(Debug, Clone, Copy, PartialEq, Eq, Structural)]
pub enum Rank {
    /// The first text comes before the second.
    Before,
    /// The two texts are the same.
    Same,
    /// The first text comes after the second.
    After,
}

/// No sequence comes before itself.
pub proof fn lemma_before_irreflexive(a: Seq<u8>)
    ensures
        !bytes_before(a, a),
{
}

/// Coming before is transitive.
pub proof fn lemma_before_transitive(a: Seq<u8>, b: Seq<u8>, c: Seq<u8>)
    requires
        bytes_before(a, b),
        bytes_before(b, c),
    ensures
        bytes_before(a, c),
{
    let k1 = choose|k: int| #[trigger] differ_at(a, b, k) && (k == a.len() || a[k] < b[k]);
    let k2 = choose|k: int| #[trigger] differ_at(b, c, k) && (k == b.len() || b[k] < c[k]);
    let k = if k1 <= k2 {
        k1
    } else {
        k2
    };
    assert(a.take(k) =~= a.take(k1).take(k));
    assert(b.take(k) =~= b.take(k1).take(k));
    assert(b.take(k) =~= b.take(k2).take(k));
    assert(c.take(k) =~= c.take(k2).take(k));
    if k < a.len() {
        if k < k1 {
            assert(a[k] == a.take(k1)[k]);
        }
        if k < k2 {
            assert(b[k] == b.take(k2)[k]);
        }
    }
    assert(differ_at(a, c, k));
}

/// A text is in no ascending sequence twice.
pub proof fn lemma_ascending_distinct(names: Seq<Seq<char>>)
    requires
        ascending(names),
    ensures
        names.no_duplicates(),
{
    assert forall|i: int, j: int| 0 <= i < names.len() && 0 <= j < names.len() && i != j implies names[i]
        != names[j] by {
        if i < j {
            assert(precedes(names[i], names[j]));
        } else {
            assert(precedes(names[j], names[i]));
        }
    }
}

/// An ascending sequence is fixed by the texts that stand in it: two
/// ascending sequences of the same texts are the same sequence.
pub proof fn lemma_ascending_unique(a: Seq<Seq<char>>, b: Seq<Seq<char>>)
    requires
        ascending(a),
        ascending(b),
        forall|name: Seq<char>| a.contains(name) <==> b.contains(name),
    ensures
        a == b,
    decreases a.len(),
{
    if a.len() == 0 {
        if b.len() > 0 {
            assert(b.contains(b[0]));
        }
    } else {
        assert(a.contains(a[0]));
        let j = choose|j: int| 0 <= j < b.len() && b[j] == a[0];
        assert(b.contains(b[0]));
        let i = choose|i: int| 0 <= i < a.len() && a[i] == b[0];
        if j > 0 && i > 0 {
            // b[0] comes before b[j] = a[0], and a[0] before a[i] = b[0]
            assert(precedes(b[0], b[j]));
            assert(precedes(a[0], a[i]));
            lemma_before_transitive(encode_utf8(a[0]), encode_utf8(b[0]), encode_utf8(a[0]));
        }
        let rest_a = a.drop_first();
        let rest_b = b.drop_first();
        lemma_ascending_distinct(a);
        lemma_ascending_distinct(b);
        assert forall|name: Seq<char>| rest_a.contains(name) <==> rest_b.contains(name) by {
            if rest_a.contains(name) {
                assert(a.contains(name));
                let m = choose|m: int| 0 <= m < b.len() && b[m] == name;
                assert(rest_b[m - 1] == name);
            }
            if rest_b.contains(name) {
                assert(b.contains(name));
                let m = choose|m: int| 0 <= m < a.len() && a[m] == name;
                assert(rest_a[m - 1] == name);
            }
        }
        assert(ascending(rest_a)) by {
            assert forall|i: int, j: int| 0 <= i < j < rest_a.len() implies precedes(
                rest_a[i],
                rest_a[j],
            ) by {}
        }
        assert(ascending(rest_b)) by {
            assert forall|i: int, j: int| 0 <= i < j < rest_b.len() implies precedes(
                rest_b[i],
                rest_b[j],
            ) by {}
        }
        lemma_ascending_unique(rest_a, rest_b);
        assert(a =~= seq![a[0]] + rest_a);
    }
}

/// Compares two byte strings.
pub fn rank_bytes(a: &[u8], b: &[u8]) -> (rank: Rank)
    ensures
        match rank {
            Rank::Before => bytes_before(a@, b@),
            Rank::Same => a@ == b@,
            Rank::After => bytes_before(b@, a@),
        },
{
    let mut i: usize = 0;
    while i < a.len() && i < b.len()
        invariant
            i <= a@.len(),
            i <= b@.len(),
            a@.take(i as int) == b@.take(i as int),
        decreases a@.len() - i,
    {
        if a[i] < b[i] {
            assert(differ_at(a@, b@, i as int));
            return Rank::Before;
        }
        if a[i] > b[i] {
            assert(differ_at(b@, a@, i as int));
            return Rank::After;
        }
        i += 1;
    }
    if i < b.len() {
        assert(differ_at(a@, b@, i as int));
        Rank::Before
    } else if i < a.len() {
        assert(differ_at(b@, a@, i as int));
        Rank::After
    } else {
        assert(a@.take(i as int) =~= a@);
        Rank::Same
    }
}

/// Compares two texts.
pub fn rank(a: &str, b: &str) -> (rank: Rank)
    ensures
        match rank {
            Rank::Before => precedes(a@, b@),
            Rank::Same => a@ == b@,
            Rank::After => precedes(b@, a@),
        },
{
    let rank = rank_bytes(a.as_bytes(), b.as_bytes());
    proof {
        if rank == Rank::Same {
            encode_utf8_decode_utf8(a@);
            encode_utf8_decode_utf8(b@);
        }
    }
    rank
}

} // verus!
