//! Parsing HTML text into the document tree.
use html5ever::tendril::TendrilSink;
use markup5ever_rcdom::{Handle, Node as RcDomNode, NodeData, RcDom};
use vstd::prelude::*;

use super::types::{
    find_attribute_value, first_attribute_value, opt_string_view, Attribute, Document, Element,
    Node,
};
use crate::error::AppError;
use crate::text::{chars_of, split_white_space, split_white_space_chars, strings_view};

verus! {

#[verifier::external_type_specification]
#[verifier::external_body]
pub struct ExRcDomNode(RcDomNode);

/// A node of the tree that the HTML5 tree builder produces, before it is
/// reduced to the document model: elements, text, and everything else
/// (comments, doctypes, processing instructions).
#[derive(Debug)]
pub enum RawNode {
    Element { name: String, attributes: Vec<Attribute>, children: Vec<RawNode> },
    Text(String),
    Other,
}

/// The top-level nodes that html5ever's HTML5 tree builder builds for
/// `input`, or `None` where it reports a failure.
pub uninterp spec fn html5ever_document_children(input: Seq<char>) -> Option<Seq<RawNode>>;

/// Converts one node of markup5ever_rcdom's tree into a `RawNode`, one for
/// one: element names and attribute names by their local part, text by its
/// contents, every other kind of node to `RawNode::Other`. Nothing is
/// stated of it; `parse_raw_document` names the result of the whole walk.
#[verifier::external_body]
fn raw_node_from_handle(handle: &Handle) -> RawNode {
    match &handle.data {
        NodeData::Element { name, attrs, .. } => RawNode::Element {
            name: name.local.to_string(),
            attributes: attrs.borrow().iter().map(
                |a| Attribute { name: a.name.local.to_string(), value: a.value.to_string() },
            ).collect(),
            children: handle.children.borrow().iter().map(raw_node_from_handle).collect(),
        },
        NodeData::Text { contents } => RawNode::Text(contents.borrow().to_string()),
        _ => RawNode::Other,
    }
}

/// Runs html5ever's `parse_document` on the UTF-8 bytes of `input` into an
/// `RcDom`, and returns the children of its document node converted one for
/// one. The contract claims only that the result is a function of `input`:
/// it is named `html5ever_document_children`.
#[verifier::external_body]
fn parse_raw_document(input: &str) -> (r: Option<Vec<RawNode>>)
    ensures
        match r {
            Some(v) => html5ever_document_children(input@) == Some(v@),
            None => html5ever_document_children(input@) is None,
        },
{
    let dom = html5ever::parse_document(RcDom::default(), Default::default()).from_utf8().read_from(
        &mut input.as_bytes(),
    ).ok()?;
    let children = dom.document.children.borrow().iter().map(raw_node_from_handle).collect();
    Some(children)
}

/// The view of a list of attributes as name/value pairs.
pub open spec fn attributes_view(a: Seq<Attribute>) -> Seq<(Seq<char>, Seq<char>)> {
    a.map_values(|x: Attribute| (x.name@, x.value@))
}

/// The classes that an element with these attributes has: the words of its
/// first `class` attribute.
pub open spec fn class_list(attributes: Seq<Attribute>) -> Seq<Seq<char>> {
    match first_attribute_value(attributes, seq!['c', 'l', 'a', 's', 's']) {
        Some(v) => split_white_space(v),
        None => Seq::empty(),
    }
}

/// `out` is what the document model keeps of `raw`: an element keeps its
/// name, its attributes, its `id` (its first `id` attribute), its classes
/// and its converted children; text is kept as it is; anything else is
/// dropped.
pub open spec fn converts_node(raw: RawNode, out: Option<Node>) -> bool
    decreases raw,
{
    match raw {
        RawNode::Element { name, attributes, children } => match out {
            Some(Node::Element(e)) => {
                &&& e.tag_name@ == name@
                &&& attributes_view(e.attributes@) == attributes_view(attributes@)
                &&& opt_string_view(e.id) == first_attribute_value(attributes@, seq!['i', 'd'])
                &&& strings_view(e.classes@) == class_list(attributes@)
                &&& converts_nodes(children@, e.children@)
            },
            _ => false,
        },
        RawNode::Text(t) => match out {
            Some(Node::Text(s)) => s@ == t@,
            _ => false,
        },
        RawNode::Other => out is None,
    }
}

/// `outs` is what the document model keeps of `raws`, in order.
pub open spec fn converts_nodes(raws: Seq<RawNode>, outs: Seq<Node>) -> bool
    decreases raws,
{
    if raws.len() == 0 {
        outs.len() == 0
    } else if raws.last() is Other {
        converts_nodes(raws.drop_last(), outs)
    } else {
        &&& outs.len() > 0
        &&& converts_node(raws.last(), Some(outs.last()))
        &&& converts_nodes(raws.drop_last(), outs.drop_last())
    }
}

fn copy_attributes(attributes: &Vec<Attribute>) -> (r: Vec<Attribute>)
    ensures
        attributes_view(r@) == attributes_view(attributes@),
{
    let mut r: Vec<Attribute> = Vec::new();
    let mut i: usize = 0;
    while i < attributes.len()
        invariant
            i <= attributes@.len(),
            attributes_view(r@) == attributes_view(attributes@.take(i as int)),
        decreases attributes@.len() - i,
    {
        let a = &attributes[i];
        let ghost before = r@;
        r.push(Attribute { name: a.name.clone(), value: a.value.clone() });
        proof {
            assert(attributes@.take(i + 1) =~= attributes@.take(i as int).push(attributes@[i as int]));
            assert(attributes_view(r@) =~= attributes_view(before).push((a.name@, a.value@)));
            assert(attributes_view(attributes@.take(i + 1)) =~= attributes_view(
                attributes@.take(i as int),
            ).push((a.name@, a.value@)));
        }
        i += 1;
    }
    assert(attributes@.take(attributes@.len() as int) =~= attributes@);
    r
}

fn convert_node(raw: &RawNode) -> (r: Option<Node>)
    ensures
        converts_node(*raw, r),
    decreases raw,
{
    match raw {
        RawNode::Element { name, attributes, children } => {
            let id_literal = "id";
            let class_literal = "class";
            proof {
                reveal_strlit("id");
                reveal_strlit("class");
                assert(id_literal@ =~= seq!['i', 'd']);
                assert(class_literal@ =~= seq!['c', 'l', 'a', 's', 's']);
            }
            let id = match find_attribute_value(attributes, id_literal) {
                Some(v) => Some(String::from_str(v)),
                None => None,
            };
            let classes = match find_attribute_value(attributes, class_literal) {
                Some(v) => {
                    let cs = chars_of(v);
                    split_white_space_chars(cs.as_slice())
                },
                None => Vec::new(),
            };
            let kids = convert_nodes(children);
            let tag_name = name.clone();
            let copied = copy_attributes(attributes);
            assert(opt_string_view(id) == first_attribute_value(attributes@, seq!['i', 'd']));
            assert(strings_view(classes@) == class_list(attributes@));
            Some(
                Node::Element(
                    Element {
                        tag_name,
                        id,
                        classes,
                        attributes: copied,
                        children: kids,
                    },
                ),
            )
        },
        RawNode::Text(t) => Some(Node::Text(t.clone())),
        RawNode::Other => None,
    }
}

fn convert_nodes(raws: &Vec<RawNode>) -> (r: Vec<Node>)
    ensures
        converts_nodes(raws@, r@),
    decreases raws@,
{
    let mut out: Vec<Node> = Vec::new();
    let mut i: usize = 0;
    while i < raws.len()
        invariant
            i <= raws@.len(),
            converts_nodes(raws@.take(i as int), out@),
        decreases raws@.len() - i,
    {
        assert(decreases_to!(raws@ => raws@[i as int]));
        let converted = convert_node(&raws[i]);
        let ghost before = out@;
        let ghost t = raws@.take(i + 1);
        proof {
            assert(t.drop_last() =~= raws@.take(i as int));
            assert(t.last() == raws@[i as int]);
        }
        match converted {
            Some(node) => {
                out.push(node);
                assert(out@.drop_last() =~= before);
            },
            None => {},
        }
        i += 1;
    }
    assert(raws@.take(raws@.len() as int) =~= raws@);
    out
}

/// The HTML front end.
pub struct HtmlParser;

impl HtmlParser {
    /// The document model of an HTML5 tree builder's top-level nodes.
    pub fn from_raw(raws: &Vec<RawNode>) -> (d: Document)
        ensures
            converts_nodes(raws@, d.children@),
    {
        Document { children: convert_nodes(raws) }
    }

    /// Parses `input` as an HTML document.
    pub fn parse(input: &str) -> (r: Result<Document, AppError>)
        ensures
            match r {
                Ok(d) => html5ever_document_children(input@) is Some && converts_nodes(
                    html5ever_document_children(input@)->0,
                    d.children@,
                ),
                Err(e) => html5ever_document_children(input@) is None && e == AppError::HtmlParsing(e->HtmlParsing_0)
                    && e->HtmlParsing_0@ == "html parsing failed"@,
            },
    {
        match parse_raw_document(input) {
            Some(raws) => {
                let d = HtmlParser::from_raw(&raws);
                assert(converts_nodes(raws@, d.children@));
                Ok(d)
            },
            None => Err(AppError::HtmlParsing(String::from_str("html parsing failed"))),
        }
    }
}

} // verus!
