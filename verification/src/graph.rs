//! The graph builder: the distinct endpoints of a map become nodes with
//! dense ids, and every edge between two different endpoints becomes a link
//! between their ids.

use vstd::prelude::*;
use vstd::utf8::encode_utf8;
use crate::flowmap::{FlowError, FlowMap};
use crate::model::{Edge, FlowDirection2, FlowName};
use crate::order::{
    ascending, lemma_ascending_distinct, lemma_ascending_unique, lemma_before_transitive,
    precedes, rank, Rank,
};

verus! {

/// The mathematical value of a link: node ids and weight unbounded.
pub struct Link {
    pub source: int,
    pub target: int,
    pub ntype: Seq<char>,
    pub value: int,
}

impl View for FlowDirection2 {
    type V = Link;

    open spec fn view(&self) -> Link {
        Link {
            source: self.source as int,
            target: self.target as int,
            ntype: self.ntype@,
            value: self.value as int,
        }
    }
}

/// The address is the source or the target of the edge.
pub open spec fn touches(edge: Edge, name: Seq<char>) -> bool {
    edge.source == name || edge.target == name
}

/// The address is an endpoint of some edge.
pub open spec fn is_endpoint(edges: Seq<Edge>, name: Seq<char>) -> bool {
    exists|i: int| 0 <= i < edges.len() && touches(#[trigger] edges[i], name)
}

/// The distinct endpoint addresses of the edges.
pub open spec fn endpoints(edges: Seq<Edge>) -> Set<Seq<char>> {
    Set::new(|name: Seq<char>| is_endpoint(edges, name))
}

/// The texts of a sequence of strings.
pub open spec fn texts(names: Seq<String>) -> Seq<Seq<char>> {
    names.map_values(|name: String| name@)
}

/// The addresses of a sequence of nodes.
pub open spec fn node_names(nodes: Seq<FlowName>) -> Seq<Seq<char>> {
    nodes.map_values(|node: FlowName| node.name@)
}

/// The values of a sequence of links.
pub open spec fn link_views(links: Seq<FlowDirection2>) -> Seq<Link> {
    links.map_values(|link: FlowDirection2| link@)
}

/// The link that stands for an edge, given the addresses of the nodes in
/// the order of their ids: the ids of its two endpoints, its tag and its
/// size as the weight.
pub open spec fn link_of(names: Seq<Seq<char>>, edge: Edge) -> Link {
    Link {
        source: names.index_of(edge.source),
        target: names.index_of(edge.target),
        ntype: edge.ntype,
        value: edge.size,
    }
}

/// The links of a sequence of edges, in the order of the edges. An edge
/// from an endpoint to itself gives no link.
pub open spec fn links_of(names: Seq<Seq<char>>, edges: Seq<Edge>) -> Seq<Link>
    decreases edges.len(),
{
    if edges.len() == 0 {
        Seq::empty()
    } else if edges.last().source == edges.last().target {
        links_of(names, edges.drop_last())
    } else {
        links_of(names, edges.drop_last()).push(link_of(names, edges.last()))
    }
}

/// The graph of a sequence of edges: the nodes carry the ids 0, 1, 2, ..
/// and the endpoint addresses in ascending order, each once; the links are
/// those of the edges.
pub open spec fn is_graph_of(nodes: Seq<FlowName>, links: Seq<FlowDirection2>, edges: Seq<Edge>) -> bool {
    &&& ascending(node_names(nodes))
    &&& forall|name: Seq<char>| node_names(nodes).contains(name) <==> is_endpoint(edges, name)
    &&& forall|i: int| 0 <= i < nodes.len() ==> (#[trigger] nodes[i]).nodeId == i
    &&& link_views(links) == links_of(node_names(nodes), edges)
}

/// Where a text stands in an ascending sequence, or where it would have to
/// be inserted: the number of texts that precede it.
fn locate(names: &Vec<String>, name: &str) -> (place: (usize, bool))
    requires
        ascending(texts(names@)),
    ensures
        place.0 <= names@.len(),
        forall|i: int| 0 <= i < place.0 ==> precedes(#[trigger] texts(names@)[i], name@),
        place.1 ==> place.0 < names@.len() && texts(names@)[place.0 as int] == name@,
        !place.1 ==> forall|i: int|
            place.0 <= i < names@.len() ==> precedes(name@, #[trigger] texts(names@)[i]),
        place.1 <==> texts(names@).contains(name@),
{
    let ghost sorted = texts(names@);
    let mut low: usize = 0;
    let mut high: usize = names.len();
    while low < high
        invariant
            sorted == texts(names@),
            ascending(sorted),
            low <= high <= names@.len(),
            forall|i: int| 0 <= i < low ==> precedes(#[trigger] sorted[i], name@),
            forall|i: int| high <= i < names@.len() ==> precedes(name@, #[trigger] sorted[i]),
        decreases high - low,
    {
        let middle = low + (high - low) / 2;
        match rank(names[middle].as_str(), name) {
            Rank::Same => {
                assert(sorted[middle as int] == name@);
                assert forall|i: int| 0 <= i < middle implies precedes(
                    #[trigger] sorted[i],
                    name@,
                ) by {}
                return (middle, true);
            },
            Rank::Before => {
                assert forall|i: int| 0 <= i < middle + 1 implies precedes(
                    #[trigger] sorted[i],
                    name@,
                ) by {
                    if i < middle {
                        assert(precedes(sorted[i], sorted[middle as int]));
                        lemma_before_transitive(
                            encode_utf8(sorted[i]),
                            encode_utf8(sorted[middle as int]),
                            encode_utf8(name@),
                        );
                    }
                }
                low = middle + 1;
            },
            Rank::After => {
                assert forall|i: int| middle <= i < names@.len() implies precedes(
                    name@,
                    #[trigger] sorted[i],
                ) by {
                    if middle < i {
                        assert(precedes(sorted[middle as int], sorted[i]));
                        lemma_before_transitive(
                            encode_utf8(name@),
                            encode_utf8(sorted[middle as int]),
                            encode_utf8(sorted[i]),
                        );
                    }
                }
                high = middle;
            },
        }
    }
    (low, false)
}

/// Puts a text into an ascending sequence, unless it is there already.
fn insert_name(names: &mut Vec<String>, name: &String)
    requires
        ascending(texts(old(names)@)),
    ensures
        ascending(texts(final(names)@)),
        forall|other: Seq<char>|
            texts(final(names)@).contains(other) <==> texts(old(names)@).contains(other) || other
                == name@,
{
    let (at, present) = locate(names, name.as_str());
    let ghost before = texts(names@);
    if !present {
        names.insert(at, name.clone());
        let ghost after = texts(names@);
        proof {
            assert(after =~= before.insert(at as int, name@));
            assert forall|i: int, j: int| 0 <= i < j < after.len() implies precedes(
                after[i],
                after[j],
            ) by {}
            assert forall|other: Seq<char>| after.contains(other) <==> before.contains(other)
                || other == name@ by {
                if before.contains(other) {
                    let i = choose|i: int| 0 <= i < before.len() && before[i] == other;
                    if i < at {
                        assert(after[i] == other);
                    } else {
                        assert(after[i + 1] == other);
                    }
                }
                if other == name@ {
                    assert(after[at as int] == other);
                }
            }
        }
    }
}

/// The endpoint addresses of the map in ascending order, each once.
fn sorted_endpoints(fm: &FlowMap) -> (names: Vec<String>)
    ensures
        ascending(texts(names@)),
        forall|name: Seq<char>| texts(names@).contains(name) <==> is_endpoint(fm@, name),
{
    let mut names: Vec<String> = Vec::new();
    let n = fm.len();
    let mut i: usize = 0;
    assert forall|name: Seq<char>| !is_endpoint(fm@.take(0), name) by {}
    while i < n
        invariant
            n == fm@.len(),
            i <= n,
            ascending(texts(names@)),
            forall|name: Seq<char>|
                texts(names@).contains(name) <==> is_endpoint(fm@.take(i as int), name),
        decreases n - i,
    {
        let edge = fm.edge(i);
        insert_name(&mut names, &edge.source);
        insert_name(&mut names, &edge.target);
        proof {
            let shorter = fm@.take(i as int);
            let longer = fm@.take(i + 1);
            assert forall|name: Seq<char>| texts(names@).contains(name) <==> is_endpoint(
                longer,
                name,
            ) by {
                if is_endpoint(shorter, name) {
                    let k = choose|k: int|
                        0 <= k < shorter.len() && touches(#[trigger] shorter[k], name);
                    assert(touches(longer[k], name));
                }
                if touches(fm@[i as int], name) {
                    assert(touches(longer[i as int], name));
                }
            }
        }
        i += 1;
    }
    assert(fm@.take(n as int) =~= fm@);
    names
}

/// Builds the graph of a map: one node per distinct endpoint address, with
/// the ids 0, 1, 2, .. given in ascending order of the addresses, and one
/// link per edge whose endpoints differ, in the order of the edges, with the
/// size of the edge as its weight. The map is left as it is. Fails if there
/// are more endpoints than 32-bit ids.
pub fn build_d3_data(fm: &FlowMap) -> (built: Result<(Vec<FlowName>, Vec<FlowDirection2>), FlowError>)
    ensures
        endpoints(fm@).finite(),
        match built {
            Ok((nodes, links)) => {
                &&& is_graph_of(nodes@, links@, fm@)
                &&& nodes@.len() == endpoints(fm@).len()
                &&& nodes@.len() <= i32::MAX
                &&& forall|j: int|
                    0 <= j < links@.len() ==> (#[trigger] links@[j]).source != links@[j].target
            },
            Err(e) => e == FlowError::TooManyNodes && endpoints(fm@).len() > i32::MAX,
        },
{
    let names = sorted_endpoints(fm);
    let ghost sorted = texts(names@);
    proof {
        lemma_ascending_distinct(sorted);
        sorted.unique_seq_to_set();
        assert(sorted.to_set() =~= endpoints(fm@));
    }
    if names.len() > i32::MAX as usize {
        return Err(FlowError::TooManyNodes);
    }
    let mut nodes: Vec<FlowName> = Vec::new();
    let mut i: usize = 0;
    while i < names.len()
        invariant
            i <= names@.len() <= i32::MAX,
            nodes@.len() == i,
            sorted == texts(names@),
            forall|k: int| 0 <= k < i ==> (#[trigger] nodes@[k]).nodeId == k,
            forall|k: int| 0 <= k < i ==> (#[trigger] nodes@[k]).name@ == sorted[k],
        decreases names@.len() - i,
    {
        nodes.push(FlowName { nodeId: i as i32, name: names[i].clone() });
        i += 1;
    }
    assert(node_names(nodes@) =~= sorted);
    let mut links: Vec<FlowDirection2> = Vec::new();
    let n = fm.len();
    let mut i: usize = 0;
    while i < n
        invariant
            n == fm@.len(),
            i <= n,
            names@.len() <= i32::MAX,
            sorted == texts(names@),
            ascending(sorted),
            sorted.no_duplicates(),
            forall|name: Seq<char>| sorted.contains(name) <==> is_endpoint(fm@, name),
            link_views(links@) == links_of(sorted, fm@.take(i as int)),
            forall|j: int|
                0 <= j < links@.len() ==> (#[trigger] links@[j]).source != links@[j].target,
        decreases n - i,
    {
        let edge = fm.edge(i);
        proof {
            assert(fm@.take(i + 1).drop_last() =~= fm@.take(i as int));
        }
        if edge.source != edge.target {
            let (source, _) = locate(&names, edge.source.as_str());
            let (target, _) = locate(&names, edge.target.as_str());
            let link = FlowDirection2 {
                source: source as i32,
                target: target as i32,
                ntype: edge.ntype.clone(),
                value: edge.size,
            };
            assert(links@.push(link).map_values(|link: FlowDirection2| link@) =~= link_views(
                links@,
            ).push(link@));
            links.push(link);
        }
        i += 1;
    }
    assert(fm@.take(n as int) =~= fm@);
    Ok((nodes, links))
}

/// The edges between two different endpoints, in their order.
pub open spec fn proper_edges(edges: Seq<Edge>) -> Seq<Edge>
    decreases edges.len(),
{
    if edges.len() == 0 {
        Seq::empty()
    } else if edges.last().source == edges.last().target {
        proper_edges(edges.drop_last())
    } else {
        proper_edges(edges.drop_last()).push(edges.last())
    }
}

/// What a link says once its ids are read back as addresses: the edge it
/// stands for.
pub open spec fn reads_back(names: Seq<Seq<char>>, link: Link, edge: Edge) -> bool {
    &&& 0 <= link.source < names.len()
    &&& 0 <= link.target < names.len()
    &&& names[link.source] == edge.source
    &&& names[link.target] == edge.target
    &&& link.source != link.target
    &&& link.ntype == edge.ntype
    &&& link.value == edge.size
}

/// The links of a sequence of edges read back as the edges between
/// different endpoints, one for one, wherever every endpoint has a node.
pub proof fn lemma_links_read_back(names: Seq<Seq<char>>, edges: Seq<Edge>)
    requires
        forall|name: Seq<char>| is_endpoint(edges, name) ==> names.contains(name),
    ensures
        links_of(names, edges).len() == proper_edges(edges).len(),
        forall|j: int|
            0 <= j < proper_edges(edges).len() ==> reads_back(
                names,
                #[trigger] links_of(names, edges)[j],
                proper_edges(edges)[j],
            ),
    decreases edges.len(),
{
    if edges.len() > 0 {
        let shorter = edges.drop_last();
        let last = edges.last();
        assert forall|name: Seq<char>| is_endpoint(shorter, name) implies names.contains(name) by {}
        lemma_links_read_back(names, shorter);
        if last.source != last.target {
            assert(names.contains(last.source));
            assert(names.contains(last.target));
        }
    }
}

/// Round trip: in the graph of a map, the links are as many as the edges
/// between different endpoints, and each link read back through the node
/// list gives the addresses, the tag and the exact size of its edge.
pub proof fn lemma_graph_round_trip(
    nodes: Seq<FlowName>,
    links: Seq<FlowDirection2>,
    edges: Seq<Edge>,
)
    requires
        is_graph_of(nodes, links, edges),
    ensures
        links.len() == proper_edges(edges).len(),
        forall|j: int|
            0 <= j < links.len() ==> reads_back(
                node_names(nodes),
                (#[trigger] links[j])@,
                proper_edges(edges)[j],
            ),
{
    lemma_links_read_back(node_names(nodes), edges);
    assert forall|j: int| 0 <= j < links.len() implies reads_back(
        node_names(nodes),
        (#[trigger] links[j])@,
        proper_edges(edges)[j],
    ) by {
        assert(link_views(links)[j] == links[j]@);
    }
}

/// The graph of a map is fixed by its edges: whatever builds it, and
/// whenever, the same edges give the same addresses under the same ids and
/// the same links.
pub proof fn lemma_graph_unique(
    nodes: Seq<FlowName>,
    links: Seq<FlowDirection2>,
    other_nodes: Seq<FlowName>,
    other_links: Seq<FlowDirection2>,
    edges: Seq<Edge>,
)
    requires
        is_graph_of(nodes, links, edges),
        is_graph_of(other_nodes, other_links, edges),
    ensures
        node_names(nodes) == node_names(other_nodes),
        link_views(links) == link_views(other_links),
        forall|i: int| 0 <= i < nodes.len() ==> (#[trigger] nodes[i]).nodeId == other_nodes[i].nodeId,
{
    assert forall|name: Seq<char>|
        node_names(nodes).contains(name) <==> node_names(other_nodes).contains(name) by {
        assert(node_names(nodes).contains(name) <==> is_endpoint(edges, name));
    }
    lemma_ascending_unique(node_names(nodes), node_names(other_nodes));
}

} // verus!
