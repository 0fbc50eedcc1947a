//! The graph as JSON text: an array of nodes and an array of links.
//!
//! A node is written as `{"name":"10.0.0.1","nodeId":0}`, a link as
//! `{"ntype":"ipv4","source":0,"target":1,"value":150.0}`: the keys in
//! alphabetical order, nothing between the tokens. The weight of a link is
//! written as a number with one decimal place, and keeps every digit of the
//! aggregated size.

use vstd::prelude::*;
use crate::flowmap::{FlowError, FlowMap};
use crate::graph::{build_d3_data, endpoints, is_graph_of};
use crate::model::{FlowDirection2, FlowName};
use crate::text::{all_digits, decimal, digits_value, is_digit};

verus! {

/// What can go wrong while a graph is written as JSON.
#[derive(Debug, Clone, Copy, PartialEq, Eq, Structural)]
pub enum JsonError {
    /// The graph could not be built.
    Graph(FlowError),
    /// A text could not be written as a JSON string.
    Text,
}

/// The JSON string literal, quotes included, that `serde_json::to_string`
/// writes for a text, or `None` where it fails.
pub uninterp spec fn json_string(text: Seq<char>) -> Option<Seq<char>>;

/// Writes a text as a JSON string literal with `serde_json::to_string`.
/// Nothing is claimed of the literal, only that it depends on the text
/// alone.
#[verifier::external_body]
fn quote(text: &str) -> (quoted: Option<String>)
    ensures
        match quoted {
            Some(literal) => json_string(text@) == Some(literal@),
            None => json_string(text@) is None,
        },
{
    serde_json::to_string(text).ok()
}

/// The character of a decimal digit.
pub open spec fn digit_char(d: int) -> char {
    if d == 0 {
        '0'
    } else if d == 1 {
        '1'
    } else if d == 2 {
        '2'
    } else if d == 3 {
        '3'
    } else if d == 4 {
        '4'
    } else if d == 5 {
        '5'
    } else if d == 6 {
        '6'
    } else if d == 7 {
        '7'
    } else if d == 8 {
        '8'
    } else {
        '9'
    }
}

/// The decimal digits of a natural number, without leading zeros.
pub open spec fn digits_of(n: nat) -> Seq<char>
    decreases n,
{
    if n < 10 {
        seq![digit_char(n as int)]
    } else {
        digits_of(n / 10).push(digit_char((n % 10) as int))
    }
}

/// The decimal text of an integer: a `-` for a negative number, then the
/// digits of its magnitude.
pub open spec fn decimal_text(n: int) -> Seq<char> {
    if n < 0 {
        seq!['-'] + digits_of((-n) as nat)
    } else {
        digits_of(n as nat)
    }
}

/// The digits of a number are digits, and stand for that number.
pub proof fn lemma_digits_of(n: nat)
    ensures
        digits_of(n).len() > 0,
        all_digits(digits_of(n)),
        digits_value(digits_of(n)) == n,
    decreases n,
{
    if n < 10 {
        assert(digits_value(digits_of(n).drop_last()) == 0);
    } else {
        lemma_digits_of(n / 10);
        assert(digits_of(n).drop_last() =~= digits_of(n / 10));
        assert forall|i: int| 0 <= i < digits_of(n).len() implies is_digit(
            #[trigger] digits_of(n)[i],
        ) by {}
    }
}

/// Round trip: the decimal text of an integer reads back as that integer.
pub proof fn lemma_decimal_text_reads_back(n: int)
    ensures
        decimal(decimal_text(n)) == Some(n),
{
    if n < 0 {
        lemma_digits_of((-n) as nat);
        assert(decimal_text(n).drop_first() =~= digits_of((-n) as nat));
    } else {
        lemma_digits_of(n as nat);
    }
}

/// A decimal digit as a text.
fn digit_text(d: u64) -> (text: &'static str)
    requires
        d < 10,
    ensures
        text@ == seq![digit_char(d as int)],
{
    proof {
        reveal_strlit("0");
        reveal_strlit("1");
        reveal_strlit("2");
        reveal_strlit("3");
        reveal_strlit("4");
        reveal_strlit("5");
        reveal_strlit("6");
        reveal_strlit("7");
        reveal_strlit("8");
        reveal_strlit("9");
    }
    let text = if d == 0 {
        "0"
    } else if d == 1 {
        "1"
    } else if d == 2 {
        "2"
    } else if d == 3 {
        "3"
    } else if d == 4 {
        "4"
    } else if d == 5 {
        "5"
    } else if d == 6 {
        "6"
    } else if d == 7 {
        "7"
    } else if d == 8 {
        "8"
    } else {
        "9"
    };
    text
}

/// The digits of a natural number appended to a text.
fn push_digits(text: String, n: u64) -> (longer: String)
    ensures
        longer@ == text@ + digits_of(n as nat),
    decreases n,
{
    if n < 10 {
        text.concat(digit_text(n))
    } else {
        let longer = push_digits(text, n / 10).concat(digit_text(n % 10));
        longer
    }
}

/// The decimal text of an integer appended to a text.
pub fn push_decimal(text: String, n: i32) -> (longer: String)
    ensures
        longer@ == text@ + decimal_text(n as int),
{
    if n < 0 {
        proof {
            reveal_strlit("-");
        }
        let signed = text.concat("-");
        let longer = push_digits(signed, (-(n as i64)) as u64);
        longer
    } else {
        push_digits(text, n as u64)
    }
}

/// A node as JSON, given its address as a JSON string.
pub open spec fn node_json(id: int, name: Seq<char>) -> Seq<char> {
    "{\"name\":"@ + name + ",\"nodeId\":"@ + decimal_text(id) + "}"@
}

/// A link as JSON, given its tag as a JSON string.
pub open spec fn link_json(source: int, target: int, ntype: Seq<char>, value: int) -> Seq<char> {
    "{\"ntype\":"@ + ntype + ",\"source\":"@ + decimal_text(source) + ",\"target\":"@
        + decimal_text(target) + ",\"value\":"@ + decimal_text(value) + ".0}"@
}

/// The items of a JSON array, each after the first behind a comma.
pub open spec fn items_json(items: Seq<Seq<char>>) -> Seq<char>
    decreases items.len(),
{
    if items.len() == 0 {
        Seq::empty()
    } else if items.len() == 1 {
        items[0]
    } else {
        items_json(items.drop_last()) + ","@ + items.last()
    }
}

/// A JSON array of items that are JSON already.
pub open spec fn array_json(items: Seq<Seq<char>>) -> Seq<char> {
    "["@ + items_json(items) + "]"@
}

/// Every text of the nodes can be written as a JSON string.
pub open spec fn nodes_writable(nodes: Seq<FlowName>) -> bool {
    forall|i: int| 0 <= i < nodes.len() ==> json_string((#[trigger] nodes[i]).name@) is Some
}

/// Every text of the links can be written as a JSON string.
pub open spec fn links_writable(links: Seq<FlowDirection2>) -> bool {
    forall|i: int| 0 <= i < links.len() ==> json_string((#[trigger] links[i]).ntype@) is Some
}

/// The nodes as JSON, one by one.
pub open spec fn node_items(nodes: Seq<FlowName>) -> Seq<Seq<char>> {
    nodes.map_values(
        |node: FlowName| node_json(node.nodeId as int, json_string(node.name@).unwrap()),
    )
}

/// The links as JSON, one by one.
pub open spec fn link_items(links: Seq<FlowDirection2>) -> Seq<Seq<char>> {
    links.map_values(
        |link: FlowDirection2|
            link_json(
                link.source as int,
                link.target as int,
                json_string(link.ntype@).unwrap(),
                link.value as int,
            ),
    )
}

/// Opens the next item of an array: nothing before the first, a comma
/// before every other.
fn open_item(text: String, first: bool, Ghost(items): Ghost<Seq<Seq<char>>>) -> (longer: String)
    requires
        first == (items.len() == 0),
        text@ == "["@ + items_json(items),
    ensures
        forall|item: Seq<char>| longer@ + item == "["@ + items_json(items.push(item)),
{
    let longer = if first {
        text
    } else {
        text.concat(",")
    };
    proof {
        assert forall|item: Seq<char>| longer@ + item == "["@ + items_json(items.push(item)) by {
            assert(items.push(item).drop_last() =~= items);
        }
    }
    longer
}

/// Writes the nodes of a graph as a JSON array. There is no text where an
/// address cannot be written as a JSON string.
pub fn nodes_to_json(nodes: &Vec<FlowName>) -> (written: Option<String>)
    ensures
        match written {
            Some(text) => nodes_writable(nodes@) && text@ == array_json(node_items(nodes@)),
            None => !nodes_writable(nodes@),
        },
{
    let mut text = "[".to_owned();
    let mut i: usize = 0;
    while i < nodes.len()
        invariant
            i <= nodes@.len(),
            forall|k: int| 0 <= k < i ==> json_string((#[trigger] nodes@[k]).name@) is Some,
            text@ == "["@ + items_json(node_items(nodes@).take(i as int)),
        decreases nodes@.len() - i,
    {
        let node = &nodes[i];
        let name = match quote(node.name.as_str()) {
            Some(name) => name,
            None => {
                return None;
            },
        };
        let ghost before = node_items(nodes@).take(i as int);
        let ghost item = node_json(node.nodeId as int, name@);
        let opened = open_item(text, i == 0, Ghost(before));
        let ghost start = opened@;
        let item_text = opened.concat("{\"name\":");
        let item_text = item_text.concat(name.as_str());
        let item_text = item_text.concat(",\"nodeId\":");
        let item_text = push_decimal(item_text, node.nodeId);
        text = item_text.concat("}");
        proof {
            assert(text@ =~= start + item);
            assert(node_items(nodes@).take(i + 1) =~= before.push(item));
        }
        i += 1;
    }
    proof {
        assert(node_items(nodes@).take(i as int) =~= node_items(nodes@));
    }
    Some(text.concat("]"))
}

/// Writes the links of a graph as a JSON array. There is no text where a
/// tag cannot be written as a JSON string.
pub fn links_to_json(links: &Vec<FlowDirection2>) -> (written: Option<String>)
    ensures
        match written {
            Some(text) => links_writable(links@) && text@ == array_json(link_items(links@)),
            None => !links_writable(links@),
        },
{
    let mut text = "[".to_owned();
    let mut i: usize = 0;
    while i < links.len()
        invariant
            i <= links@.len(),
            forall|k: int| 0 <= k < i ==> json_string((#[trigger] links@[k]).ntype@) is Some,
            text@ == "["@ + items_json(link_items(links@).take(i as int)),
        decreases links@.len() - i,
    {
        let link = &links[i];
        let ntype = match quote(link.ntype.as_str()) {
            Some(ntype) => ntype,
            None => {
                return None;
            },
        };
        let ghost before = link_items(links@).take(i as int);
        let ghost item = link_json(
            link.source as int,
            link.target as int,
            ntype@,
            link.value as int,
        );
        let opened = open_item(text, i == 0, Ghost(before));
        let ghost start = opened@;
        let item_text = opened.concat("{\"ntype\":");
        let item_text = item_text.concat(ntype.as_str());
        let item_text = item_text.concat(",\"source\":");
        let item_text = push_decimal(item_text, link.source);
        let item_text = item_text.concat(",\"target\":");
        let item_text = push_decimal(item_text, link.target);
        let item_text = item_text.concat(",\"value\":");
        let item_text = push_decimal(item_text, link.value);
        text = item_text.concat(".0}");
        proof {
            assert(text@ =~= start + item);
            assert(link_items(links@).take(i + 1) =~= before.push(item));
        }
        i += 1;
    }
    proof {
        assert(link_items(links@).take(i as int) =~= link_items(links@));
    }
    Some(text.concat("]"))
}

/// Builds the graph of a map and writes it as two JSON arrays: the nodes
/// and the links.
pub fn build_d3_json(fm: &FlowMap) -> (written: Result<(String, String), JsonError>)
    ensures
        match written {
            Ok((nodes_text, links_text)) => exists|nodes: Seq<FlowName>, links: Seq<FlowDirection2>|
                {
                    &&& #[trigger] is_graph_of(nodes, links, fm@)
                    &&& nodes_writable(nodes)
                    &&& links_writable(links)
                    &&& nodes_text@ == array_json(node_items(nodes))
                    &&& links_text@ == array_json(link_items(links))
                },
            Err(JsonError::Graph(e)) => e == FlowError::TooManyNodes && endpoints(fm@).len()
                > i32::MAX,
            Err(JsonError::Text) => exists|nodes: Seq<FlowName>, links: Seq<FlowDirection2>|
                {
                    &&& #[trigger] is_graph_of(nodes, links, fm@)
                    &&& !nodes_writable(nodes) || !links_writable(links)
                },
        },
{
    let (nodes, links) = match build_d3_data(fm) {
        Ok(graph) => graph,
        Err(e) => {
            return Err(JsonError::Graph(e));
        },
    };
    let nodes_text = match nodes_to_json(&nodes) {
        Some(text) => text,
        None => {
            return Err(JsonError::Text);
        },
    };
    let links_text = match links_to_json(&links) {
        Some(text) => text,
        None => {
            return Err(JsonError::Text);
        },
    };
    Ok((nodes_text, links_text))
}

} // verus!
