//! The document tree that the HTML parser produces.
use vstd::prelude::*;

use crate::text::str_equal;

verus! {

/// A `name="value"` pair on an element.
#[derive(Debug, Clone, PartialEq)]
pub struct Attribute {
    pub name: String,
    pub value: String,
}

/// A node of the tree: an element or a run of text.
#[derive(Debug, PartialEq)]
pub enum Node {
    Element(Element),
    Text(String),
}

/// An element with its tag, its `id` and classes, its attributes in source
/// order and its children.
#[derive(Debug, PartialEq)]
pub struct Element {
    pub tag_name: String,
    pub id: Option<String>,
    pub classes: Vec<String>,
    pub attributes: Vec<Attribute>,
    pub children: Vec<Node>,
}

/// A parsed document: its top-level nodes.
#[derive(Debug, PartialEq)]
pub struct Document {
    pub children: Vec<Node>,
}

/// The value of the first attribute in `attrs` whose name is `name`.
pub open spec fn first_attribute_value(attrs: Seq<Attribute>, name: Seq<char>) -> Option<Seq<char>>
    decreases attrs.len(),
{
    if attrs.len() == 0 {
        None
    } else if attrs[0].name@ == name {
        Some(attrs[0].value@)
    } else {
        first_attribute_value(attrs.drop_first(), name)
    }
}

/// The view of an optional string slice.
pub open spec fn opt_str_view(o: Option<&str>) -> Option<Seq<char>> {
    match o {
        Some(s) => Some(s@),
        None => None,
    }
}

/// The view of an optional string.
pub open spec fn opt_string_view(o: Option<String>) -> Option<Seq<char>> {
    match o {
        Some(s) => Some(s@),
        None => None,
    }
}

/// The value of the first attribute in `attributes` named exactly `name`.
pub fn find_attribute_value<'a>(attributes: &'a Vec<Attribute>, name: &str) -> (r: Option<&'a str>)
    ensures
        opt_str_view(r) == first_attribute_value(attributes@, name@),
{
    let mut i: usize = 0;
    assert(attributes@.skip(0) =~= attributes@);
    while i < attributes.len()
        invariant
            i <= attributes@.len(),
            first_attribute_value(attributes@, name@) == first_attribute_value(
                attributes@.skip(i as int),
                name@,
            ),
        decreases attributes@.len() - i,
    {
        let attribute = &attributes[i];
        if str_equal(attribute.name.as_str(), name) {
            return Some(attribute.value.as_str());
        }
        assert(attributes@.skip(i as int).drop_first() =~= attributes@.skip(i + 1));
        i += 1;
    }
    None
}

impl Element {
    /// The value of the first attribute named exactly `name`, if any.
    pub fn attribute(&self, name: &str) -> (r: Option<&str>)
        ensures
            opt_str_view(r) == first_attribute_value(self.attributes@, name@),
    {
        find_attribute_value(&self.attributes, name)
    }
}

} // verus!
