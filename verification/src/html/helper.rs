//! Text extraction from the document tree.
use vstd::prelude::*;

use super::types::{Element, Node};

verus! {

/// The text of a node: the text itself, or the text of an element's children.
pub open spec fn node_text(n: Node) -> Seq<char>
    decreases n,
{
    match n {
        Node::Text(t) => t@,
        Node::Element(e) => nodes_text(e.children@),
    }
}

/// The text of a sequence of nodes, concatenated in document order.
pub open spec fn nodes_text(ns: Seq<Node>) -> Seq<char>
    decreases ns,
{
    if ns.len() == 0 {
        Seq::empty()
    } else {
        nodes_text(ns.drop_last()) + node_text(ns.last())
    }
}

/// All text below `element`, in document order.
pub fn text_content(element: &Element) -> (r: String)
    ensures
        r@ == nodes_text(element.children@),
{
    let mut text = String::new();
    collect_text(&element.children, &mut text);
    text
}

/// Appends the text of `nodes`, in document order, to `output`.
fn collect_text(nodes: &Vec<Node>, output: &mut String)
    ensures
        final(output)@ == old(output)@ + nodes_text(nodes@),
    decreases nodes@,
{
    let mut i: usize = 0;
    while i < nodes.len()
        invariant
            i <= nodes@.len(),
            output@ == old(output)@ + nodes_text(nodes@.take(i as int)),
        decreases nodes@.len() - i,
    {
        let ghost before = output@;
        match &nodes[i] {
            Node::Text(value) => output.append(value.as_str()),
            Node::Element(element) => {
                assert(decreases_to!(nodes@ => nodes@[i as int]));
                collect_text(&element.children, output);
            },
        }
        proof {
            let t = nodes@.take(i + 1);
            assert(t.drop_last() =~= nodes@.take(i as int));
            assert(t.last() == nodes@[i as int]);
            assert(output@ == before + node_text(nodes@[i as int]));
            assert(output@ =~= old(output)@ + nodes_text(t));
        }
        i += 1;
    }
    assert(nodes@.take(nodes@.len() as int) =~= nodes@);
}

} // verus!
