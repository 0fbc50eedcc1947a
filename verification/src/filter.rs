//! The noise filter: edges with a multicast, link-local or broadcast
//! endpoint are taken out of the map.
//!
//! An address is noise if it begins with the IPv6 multicast prefix
//! `ff02:0000:`, begins with the IPv6 link-local prefix `fe80:0000:`, or
//! holds the broadcast MAC address `ffffffffffff` anywhere. An edge goes if
//! its source or its target is noise; each side is looked at on its own.

use vstd::prelude::*;
use crate::flowmap::{unique_keys, without_flagged, FlowMap};
use crate::model::Edge;

verus! {

/// The prefix of the IPv6 multicast addresses.
pub const MULTICAST_PREFIX: &'static str = "ff02:0000:";

/// The prefix of the IPv6 link-local addresses.
pub const LOCAL_PREFIX: &'static str = "fe80:0000:";

/// The broadcast MAC address.
pub const BROADCAST_MAC: &'static str = "ffffffffffff";

/// The expression that finds the multicast prefix at the start of a text.
const MULTICAST_PATTERN: &'static str = "^ff02:0000:";

/// The expression that finds the link-local prefix at the start of a text.
const LOCAL_PATTERN: &'static str = "^fe80:0000:";

/// The characters that stand for themselves in a regular expression, as
/// far as addresses need them: ASCII letters, ASCII digits and the colon.
pub open spec fn is_plain_char(c: char) -> bool {
    ('a' <= c && c <= 'z') || ('A' <= c && c <= 'Z') || ('0' <= c && c <= '9') || c == ':'
}

/// A short text of characters that stand for themselves.
pub open spec fn is_plain(s: Seq<char>) -> bool {
    s.len() <= 64 && forall|i: int| 0 <= i < s.len() ==> is_plain_char(#[trigger] s[i])
}

/// A short plain text behind the anchor `^`.
pub open spec fn is_anchored(s: Seq<char>) -> bool {
    s.len() > 0 && s[0] == '^' && is_plain(s.drop_first())
}

/// The part stands somewhere in the text, character for character.
pub open spec fn occurs_in(part: Seq<char>, text: Seq<char>) -> bool {
    exists|i: int|
        0 <= i <= text.len() - part.len() && #[trigger] text.subrange(i, i + part.len()) == part
}

/// The address is noise.
pub open spec fn is_noise_address(address: Seq<char>) -> bool {
    MULTICAST_PREFIX@.is_prefix_of(address) || LOCAL_PREFIX@.is_prefix_of(address) || occurs_in(
        BROADCAST_MAC@,
        address,
    )
}

/// The edge has a noise address as its source or as its target.
pub open spec fn is_noise(edge: Edge) -> bool {
    is_noise_address(edge.source) || is_noise_address(edge.target)
}

/// The edges for which `keep` holds, in their order.
pub open spec fn retain(edges: Seq<Edge>, keep: spec_fn(Edge) -> bool) -> Seq<Edge>
    decreases edges.len(),
{
    if edges.len() == 0 {
        Seq::empty()
    } else if keep(edges.last()) {
        retain(edges.drop_last(), keep).push(edges.last())
    } else {
        retain(edges.drop_last(), keep)
    }
}

/// The edges neither of whose endpoints begins with the prefix.
pub open spec fn without_prefix(edges: Seq<Edge>, prefix: Seq<char>) -> Seq<Edge> {
    retain(
        edges,
        |edge: Edge| !(prefix.is_prefix_of(edge.source) || prefix.is_prefix_of(edge.target)),
    )
}

/// The edges neither of whose endpoints holds the part.
pub open spec fn without_part(edges: Seq<Edge>, part: Seq<char>) -> Seq<Edge> {
    retain(edges, |edge: Edge| !(occurs_in(part, edge.source) || occurs_in(part, edge.target)))
}

/// The edges that are no noise.
pub open spec fn denoised(edges: Seq<Edge>) -> Seq<Edge> {
    retain(edges, |edge: Edge| !is_noise(edge))
}

/// Compiles the pattern with `regex::Regex::new` and searches the text with
/// `Regex::is_match`; `None` says that the pattern did not compile.
///
/// What is taken on trust of the regex crate is little: a short pattern of
/// letters, digits and colons compiles and is found exactly where it stands
/// in the text, character for character; and with the anchor `^` before it,
/// exactly where the text begins with it. Of any other pattern nothing is
/// claimed.
#[verifier::external_body]
fn search(pattern: &str, text: &str) -> (found: Option<bool>)
    ensures
        is_plain(pattern@) ==> found == Some(occurs_in(pattern@, text@)),
        is_anchored(pattern@) ==> found == Some(pattern@.drop_first().is_prefix_of(text@)),
{
    match regex::Regex::new(pattern) {
        Ok(compiled) => Some(compiled.is_match(text)),
        Err(_) => None,
    }
}

/// What a search says of a text: a hit only where the pattern compiled and
/// was found.
pub fn is_hit(found: Option<bool>) -> (hit: bool)
    ensures
        hit == (found == Some(true)),
{
    match found {
        Some(hit) => hit,
        None => false,
    }
}

/// Keeping by flags and keeping by a predicate agree where each flag says
/// that the predicate fails.
pub proof fn lemma_flags_retain(edges: Seq<Edge>, flagged: Seq<bool>, keep: spec_fn(Edge) -> bool)
    requires
        flagged.len() == edges.len(),
        forall|i: int| 0 <= i < edges.len() ==> flagged[i] == !keep(#[trigger] edges[i]),
    ensures
        without_flagged(edges, flagged) == retain(edges, keep),
    decreases edges.len(),
{
    if edges.len() > 0 {
        let shorter = edges.drop_last();
        let fewer = flagged.drop_last();
        lemma_flags_retain(shorter, fewer, keep);
        lemma_flags_beyond(shorter, fewer, flagged);
    }
}

/// Flags past the end of the edges do not matter.
proof fn lemma_flags_beyond(edges: Seq<Edge>, flagged: Seq<bool>, longer: Seq<bool>)
    requires
        edges.len() <= flagged.len() <= longer.len(),
        forall|i: int| 0 <= i < flagged.len() ==> flagged[i] == longer[i],
    ensures
        without_flagged(edges, flagged) == without_flagged(edges, longer),
    decreases edges.len(),
{
    if edges.len() > 0 {
        lemma_flags_beyond(edges.drop_last(), flagged, longer);
    }
}

/// Takes out every edge whose source or target the pattern is found in.
fn remove_matching(fm: &mut FlowMap, pattern: &str)
    ensures
        unique_keys(final(fm)@),
        is_plain(pattern@) ==> final(fm)@ == without_part(old(fm)@, pattern@),
        is_anchored(pattern@) ==> final(fm)@ == without_prefix(old(fm)@, pattern@.drop_first()),
{
    let mut flagged: Vec<bool> = Vec::new();
    let mut i: usize = 0;
    let n = fm.len();
    let ghost prefix = pattern@.drop_first();
    while i < n
        invariant
            n == fm@.len(),
            i <= n,
            flagged@.len() == i,
            prefix == pattern@.drop_first(),
            is_plain(pattern@) ==> forall|j: int|
                0 <= j < i ==> flagged@[j] == (occurs_in(pattern@, (#[trigger] fm@[j]).source)
                    || occurs_in(pattern@, fm@[j].target)),
            is_anchored(pattern@) ==> forall|j: int|
                0 <= j < i ==> flagged@[j] == (prefix.is_prefix_of((#[trigger] fm@[j]).source)
                    || prefix.is_prefix_of(fm@[j].target)),
        decreases n - i,
    {
        let edge = fm.edge(i);
        let noise = is_hit(search(pattern, edge.source.as_str())) || is_hit(
            search(pattern, edge.target.as_str()),
        );
        flagged.push(noise);
        i += 1;
    }
    proof {
        if is_plain(pattern@) {
            lemma_flags_retain(
                fm@,
                flagged@,
                |edge: Edge|
                    !(occurs_in(pattern@, edge.source) || occurs_in(pattern@, edge.target)),
            );
        }
        if is_anchored(pattern@) {
            lemma_flags_retain(
                fm@,
                flagged@,
                |edge: Edge|
                    !(prefix.is_prefix_of(edge.source) || prefix.is_prefix_of(edge.target)),
            );
        }
    }
    fm.remove_flagged(&flagged);
}

/// The three texts of the filter are short and plain, and the two patterns
/// are the two prefixes behind an anchor.
proof fn lemma_patterns()
    ensures
        is_plain(BROADCAST_MAC@),
        is_anchored(MULTICAST_PATTERN@),
        is_anchored(LOCAL_PATTERN@),
        MULTICAST_PATTERN@.drop_first() == MULTICAST_PREFIX@,
        LOCAL_PATTERN@.drop_first() == LOCAL_PREFIX@,
{
    reveal_strlit("ffffffffffff");
    reveal_strlit("^ff02:0000:");
    reveal_strlit("^fe80:0000:");
    reveal_strlit("ff02:0000:");
    reveal_strlit("fe80:0000:");
}

/// Takes out the edges with an endpoint under the IPv6 multicast prefix.
pub fn filter_multicast_ipv6(fm: &mut FlowMap)
    ensures
        final(fm)@ == without_prefix(old(fm)@, MULTICAST_PREFIX@),
        unique_keys(final(fm)@),
{
    proof {
        lemma_patterns();
    }
    remove_matching(fm, MULTICAST_PATTERN)
}

/// Takes out the edges with an endpoint under the IPv6 link-local prefix.
pub fn filter_local_ipv6(fm: &mut FlowMap)
    ensures
        final(fm)@ == without_prefix(old(fm)@, LOCAL_PREFIX@),
        unique_keys(final(fm)@),
{
    proof {
        lemma_patterns();
    }
    remove_matching(fm, LOCAL_PATTERN)
}

/// Takes out the edges with the broadcast MAC address in an endpoint.
pub fn filter_ff_mac(fm: &mut FlowMap)
    ensures
        final(fm)@ == without_part(old(fm)@, BROADCAST_MAC@),
        unique_keys(final(fm)@),
{
    proof {
        lemma_patterns();
    }
    remove_matching(fm, BROADCAST_MAC)
}

/// Applies the three noise filters, one after the other: what is left are
/// the edges that are no noise.
pub fn filter_noise(fm: &mut FlowMap)
    ensures
        final(fm)@ == denoised(old(fm)@),
        unique_keys(final(fm)@),
{
    proof {
        lemma_three_filters(fm@);
    }
    filter_multicast_ipv6(fm);
    filter_local_ipv6(fm);
    filter_ff_mac(fm);
}

/// The three filters one after the other leave the edges that are no noise.
pub proof fn lemma_three_filters(edges: Seq<Edge>)
    ensures
        without_part(
            without_prefix(without_prefix(edges, MULTICAST_PREFIX@), LOCAL_PREFIX@),
            BROADCAST_MAC@,
        ) == denoised(edges),
{
    let multicast = |edge: Edge|
        !(MULTICAST_PREFIX@.is_prefix_of(edge.source) || MULTICAST_PREFIX@.is_prefix_of(
            edge.target,
        ));
    let local = |edge: Edge|
        !(LOCAL_PREFIX@.is_prefix_of(edge.source) || LOCAL_PREFIX@.is_prefix_of(edge.target));
    let broadcast = |edge: Edge|
        !(occurs_in(BROADCAST_MAC@, edge.source) || occurs_in(BROADCAST_MAC@, edge.target));
    let two = |edge: Edge| multicast(edge) && local(edge);
    lemma_retain_twice(edges, multicast, local);
    lemma_retain_twice(edges, two, broadcast);
    lemma_retain_same(
        edges,
        |edge: Edge| two(edge) && broadcast(edge),
        |edge: Edge| !is_noise(edge),
    );
}

/// Keeping by one predicate and then by another is keeping by both.
pub proof fn lemma_retain_twice(
    edges: Seq<Edge>,
    first: spec_fn(Edge) -> bool,
    second: spec_fn(Edge) -> bool,
)
    ensures
        retain(retain(edges, first), second) == retain(
            edges,
            |edge: Edge| first(edge) && second(edge),
        ),
    decreases edges.len(),
{
    if edges.len() > 0 {
        lemma_retain_twice(edges.drop_last(), first, second);
        if first(edges.last()) {
            assert(retain(edges, first).drop_last() =~= retain(edges.drop_last(), first));
        }
    }
}

/// Two predicates that agree on every edge keep the same edges.
pub proof fn lemma_retain_same(
    edges: Seq<Edge>,
    first: spec_fn(Edge) -> bool,
    second: spec_fn(Edge) -> bool,
)
    requires
        forall|edge: Edge| #[trigger] first(edge) == second(edge),
    ensures
        retain(edges, first) == retain(edges, second),
    decreases edges.len(),
{
    if edges.len() > 0 {
        lemma_retain_same(edges.drop_last(), first, second);
    }
}

/// Keeping is idempotent: a second pass with the same predicate removes
/// nothing more.
pub proof fn lemma_retain_idempotent(edges: Seq<Edge>, keep: spec_fn(Edge) -> bool)
    ensures
        retain(retain(edges, keep), keep) == retain(edges, keep),
{
    lemma_retain_twice(edges, keep, keep);
    lemma_retain_same(edges, |edge: Edge| keep(edge) && keep(edge), keep);
}

/// Keeping does not depend on the order of two passes.
pub proof fn lemma_retain_order(
    edges: Seq<Edge>,
    first: spec_fn(Edge) -> bool,
    second: spec_fn(Edge) -> bool,
)
    ensures
        retain(retain(edges, first), second) == retain(retain(edges, second), first),
{
    lemma_retain_twice(edges, first, second);
    lemma_retain_twice(edges, second, first);
    lemma_retain_same(
        edges,
        |edge: Edge| first(edge) && second(edge),
        |edge: Edge| second(edge) && first(edge),
    );
}

/// Every edge that is kept satisfies the predicate and was there before.
pub proof fn lemma_retain_keeps(edges: Seq<Edge>, keep: spec_fn(Edge) -> bool)
    ensures
        forall|i: int|
            0 <= i < retain(edges, keep).len() ==> keep(#[trigger] retain(edges, keep)[i])
                && edges.contains(retain(edges, keep)[i]),
    decreases edges.len(),
{
    if edges.len() > 0 {
        let shorter = edges.drop_last();
        lemma_retain_keeps(shorter, keep);
        let left = retain(edges, keep);
        assert forall|i: int| 0 <= i < left.len() implies keep(#[trigger] left[i])
            && edges.contains(left[i]) by {
            if i < retain(shorter, keep).len() {
                let kept = retain(shorter, keep)[i];
                let j = choose|j: int| 0 <= j < shorter.len() && shorter[j] == kept;
                assert(edges[j] == kept);
            } else {
                assert(edges[edges.len() - 1] == left[i]);
            }
        }
    }
}

/// Filtering is idempotent: each of the filters, and the three together,
/// remove nothing more when they run a second time.
pub proof fn lemma_filter_idempotent(edges: Seq<Edge>, text: Seq<char>)
    ensures
        without_prefix(without_prefix(edges, text), text) == without_prefix(edges, text),
        without_part(without_part(edges, text), text) == without_part(edges, text),
        denoised(denoised(edges)) == denoised(edges),
{
    lemma_retain_idempotent(
        edges,
        |edge: Edge| !(text.is_prefix_of(edge.source) || text.is_prefix_of(edge.target)),
    );
    lemma_retain_idempotent(
        edges,
        |edge: Edge| !(occurs_in(text, edge.source) || occurs_in(text, edge.target)),
    );
    lemma_retain_idempotent(edges, |edge: Edge| !is_noise(edge));
}

/// Filters are independent of their order: a prefix filter and the
/// broadcast filter, or two prefix filters, remove the same edges whichever
/// runs first.
pub proof fn lemma_filter_order(edges: Seq<Edge>, first: Seq<char>, second: Seq<char>)
    ensures
        without_prefix(without_prefix(edges, first), second) == without_prefix(
            without_prefix(edges, second),
            first,
        ),
        without_part(without_prefix(edges, first), second) == without_prefix(
            without_part(edges, second),
            first,
        ),
{
    let begins_first = |edge: Edge|
        !(first.is_prefix_of(edge.source) || first.is_prefix_of(edge.target));
    let begins_second = |edge: Edge|
        !(second.is_prefix_of(edge.source) || second.is_prefix_of(edge.target));
    let holds_second = |edge: Edge|
        !(occurs_in(second, edge.source) || occurs_in(second, edge.target));
    lemma_retain_order(edges, begins_first, begins_second);
    lemma_retain_order(edges, begins_first, holds_second);
}

/// The noise filter leaves no edge with a noise address, whatever the
/// other endpoint of the edge is, and leaves only edges that were there.
pub proof fn lemma_no_noise_left(edges: Seq<Edge>)
    ensures
        forall|i: int|
            0 <= i < denoised(edges).len() ==> {
                &&& !is_noise_address((#[trigger] denoised(edges)[i]).source)
                &&& !is_noise_address(denoised(edges)[i].target)
                &&& edges.contains(denoised(edges)[i])
            },
{
    lemma_retain_keeps(edges, |edge: Edge| !is_noise(edge));
}

} // verus!
