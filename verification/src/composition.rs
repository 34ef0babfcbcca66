//! What composition decides from the document alone: the text of its style
//! sheets, and each element's default display, weight and direction.
use vstd::prelude::*;

use crate::css::parser::direction_keyword_name;
use crate::css::types::{Display, FontWeight};
use crate::html::helper::{node_text, nodes_text};
use crate::html::types::{Document, Node};
use crate::text::{chars_of, str_equal, trim, trim_chars};
use crate::units::Direction;

verus! {

/// The text of every `<style>` element below `nodes`, in document order,
/// each followed by a newline; a `<style>` element's own descendants are
/// not searched for further style elements.
pub open spec fn style_text(nodes: Seq<Node>) -> Seq<char>
    decreases nodes,
{
    if nodes.len() == 0 {
        Seq::empty()
    } else {
        style_text(nodes.drop_last()) + match nodes.last() {
            Node::Element(e) => if e.tag_name@ == "style"@ {
                nodes_text(e.children@) + seq!['\n']
            } else {
                style_text(e.children@)
            },
            Node::Text(_) => Seq::empty(),
        }
    }
}

/// The text of all style sheets embedded in `document`.
pub fn collect_stylesheet_text(document: &Document) -> (r: String)
    ensures
        r@ == style_text(document.children@),
{
    let mut output = String::new();
    collect_style_nodes(&document.children, &mut output);
    output
}

/// Appends the style sheet text below `nodes` to `output`.
pub fn collect_style_nodes(nodes: &Vec<Node>, output: &mut String)
    ensures
        final(output)@ == old(output)@ + style_text(nodes@),
    decreases nodes@,
{
    let newline = "\n";
    proof {
        reveal_strlit("\n");
    }
    let mut i: usize = 0;
    while i < nodes.len()
        invariant
            i <= nodes@.len(),
            output@ == old(output)@ + style_text(nodes@.take(i as int)),
            newline@ == seq!['\n'],
        decreases nodes@.len() - i,
    {
        let ghost before = output@;
        if let Node::Element(element) = &nodes[i] {
            assert(decreases_to!(nodes@ => nodes@[i as int]));
            if str_equal(element.tag_name.as_str(), "style") {
                collect_raw_text(&element.children, output);
                output.append(newline);
                assert(output@ =~= before + (nodes_text(element.children@) + seq!['\n']));
            } else {
                collect_style_nodes(&element.children, output);
                assert(element.tag_name@ != "style"@);
                assert(output@ =~= before + style_text(element.children@));
            }
        } else {
            assert(output@ =~= before + Seq::<char>::empty());
        }
        proof {
            let t = nodes@.take(i + 1);
            assert(t.drop_last() =~= nodes@.take(i as int));
            assert(t.last() == nodes@[i as int]);
            assert(output@ =~= old(output)@ + style_text(t));
        }
        i += 1;
    }
    assert(nodes@.take(nodes@.len() as int) =~= nodes@);
}

/// Appends the text of `nodes`, in document order, to `output`.
pub fn collect_raw_text(nodes: &Vec<Node>, output: &mut String)
    ensures
        final(output)@ == old(output)@ + nodes_text(nodes@),
    decreases nodes@,
{
    let mut i: usize = 0;
    while i < nodes.len()
        invariant
            i <= nodes@.len(),
            output@ == old(output)@ + nodes_text(nodes@.take(i as int)),
        decreases nodes@.len() - i,
    {
        let ghost before = output@;
        match &nodes[i] {
            Node::Text(text) => output.append(text.as_str()),
            Node::Element(element) => {
                assert(decreases_to!(nodes@ => nodes@[i as int]));
                collect_raw_text(&element.children, output);
            },
        }
        assert(output@ == before + node_text(nodes@[i as int]));
        proof {
            let t = nodes@.take(i + 1);
            assert(t.drop_last() =~= nodes@.take(i as int));
            assert(t.last() == nodes@[i as int]);
            assert(output@ =~= old(output)@ + nodes_text(t));
        }
        i += 1;
    }
    assert(nodes@.take(nodes@.len() as int) =~= nodes@);
}

/// The style sheet that composition parses: the embedded style sheets,
/// then, where the extra style sheet holds more than white space, a newline
/// and the extra style sheet.
pub open spec fn combined_stylesheet(embedded: Seq<char>, extra: Seq<char>) -> Seq<char> {
    if trim(extra).len() == 0 {
        embedded
    } else {
        embedded + seq!['\n'] + extra
    }
}

/// Joins the embedded style sheets and an extra one.
pub fn combine_stylesheets(embedded: String, extra: &str) -> (r: String)
    ensures
        r@ == combined_stylesheet(embedded@, extra@),
{
    let chars = chars_of(extra);
    let trimmed = trim_chars(chars.as_slice());
    if trimmed.len() == 0 {
        return embedded;
    }
    let mut css = embedded;
    let newline = "\n";
    proof {
        reveal_strlit("\n");
    }
    css.append(newline);
    css.append(extra);
    css
}

/// The display that an element has before any style applies: block for
/// the structural, text and table tags, none for the head and its
/// metadata, inline otherwise.
pub open spec fn default_display(tag: Seq<char>) -> Display {
    if tag == "html"@ || tag == "body"@ || tag == "div"@ || tag == "section"@ || tag == "article"@ || tag == "header"@ || tag == "footer"@ || tag == "main"@ || tag == "aside"@ || tag == "nav"@ || tag == "p"@ || tag == "h1"@ || tag == "h2"@ || tag == "h3"@ || tag == "h4"@ || tag == "h5"@ || tag == "h6"@ || tag == "table"@ || tag == "thead"@ || tag == "tbody"@ || tag == "tfoot"@ || tag == "tr"@ || tag == "td"@ || tag == "th"@ {
        Display::Block
    } else if tag == "head"@ || tag == "style"@ || tag == "script"@ || tag == "meta"@ || tag == "title"@ || tag == "link"@ {
        Display::NoDisplay
    } else {
        Display::Inline
    }
}

/// The tags laid out as blocks before any style applies: the document,
/// its sections, paragraphs, headings and the parts of tables.
pub open spec fn block_level_tags() -> Set<Seq<char>> {
    set!["html"@, "body"@, "div"@, "section"@, "article"@, "header"@, "footer"@, "main"@, "aside"@, "nav"@, "p"@, "h1"@, "h2"@, "h3"@, "h4"@, "h5"@, "h6"@, "table"@, "thead"@, "tbody"@, "tfoot"@, "tr"@, "td"@, "th"@]
}

/// The tags that are not displayed: the document head and what it holds.
pub open spec fn hidden_tags() -> Set<Seq<char>> {
    set!["head"@, "style"@, "script"@, "meta"@, "title"@, "link"@]
}

/// The tags that are bold before any style applies.
pub open spec fn bold_tags() -> Set<Seq<char>> {
    set!["b"@, "strong"@, "h1"@, "h2"@, "h3"@, "h4"@]
}

/// Before any style applies, block-level tags are blocks, the head and
/// what it holds are not displayed, and every other tag is inline.
pub proof fn law_default_display_by_tag_kind(tag: Seq<char>)
    ensures
        block_level_tags().contains(tag) ==> default_display(tag) == Display::Block,
        hidden_tags().contains(tag) ==> default_display(tag) == Display::NoDisplay,
        !block_level_tags().contains(tag) && !hidden_tags().contains(tag) ==> default_display(tag) == Display::Inline,
{
    if hidden_tags().contains(tag) {
        reveal_strlit("head");
        reveal_strlit("style");
        reveal_strlit("script");
        reveal_strlit("meta");
        reveal_strlit("title");
        reveal_strlit("link");
        reveal_strlit("html");
        reveal_strlit("body");
        reveal_strlit("div");
        reveal_strlit("section");
        reveal_strlit("article");
        reveal_strlit("header");
        reveal_strlit("footer");
        reveal_strlit("main");
        reveal_strlit("aside");
        reveal_strlit("nav");
        reveal_strlit("p");
        reveal_strlit("h1");
        reveal_strlit("h2");
        reveal_strlit("h3");
        reveal_strlit("h4");
        reveal_strlit("h5");
        reveal_strlit("h6");
        reveal_strlit("table");
        reveal_strlit("thead");
        reveal_strlit("tbody");
        reveal_strlit("tfoot");
        reveal_strlit("tr");
        reveal_strlit("td");
        reveal_strlit("th");
        assert("head"@.len() == 4);
        assert("style"@.len() == 5);
        assert("script"@.len() == 6);
        assert("meta"@.len() == 4);
        assert("title"@.len() == 5);
        assert("link"@.len() == 4);
        assert("html"@.len() == 4);
        assert("body"@.len() == 4);
        assert("div"@.len() == 3);
        assert("section"@.len() == 7);
        assert("article"@.len() == 7);
        assert("header"@.len() == 6);
        assert("footer"@.len() == 6);
        assert("main"@.len() == 4);
        assert("aside"@.len() == 5);
        assert("nav"@.len() == 3);
        assert("p"@.len() == 1);
        assert("h1"@.len() == 2);
        assert("h2"@.len() == 2);
        assert("h3"@.len() == 2);
        assert("h4"@.len() == 2);
        assert("h5"@.len() == 2);
        assert("h6"@.len() == 2);
        assert("table"@.len() == 5);
        assert("thead"@.len() == 5);
        assert("tbody"@.len() == 5);
        assert("tfoot"@.len() == 5);
        assert("tr"@.len() == 2);
        assert("td"@.len() == 2);
        assert("th"@.len() == 2);
        assert("head"@[1] != "html"@[1]);
        assert("head"@[0] != "body"@[0]);
        assert("head"@[0] != "main"@[0]);
        assert("style"@[0] != "aside"@[0]);
        assert("style"@[0] != "table"@[0]);
        assert("style"@[0] != "thead"@[0]);
        assert("style"@[0] != "tbody"@[0]);
        assert("style"@[0] != "tfoot"@[0]);
        assert("script"@[0] != "header"@[0]);
        assert("script"@[0] != "footer"@[0]);
        assert("meta"@[0] != "html"@[0]);
        assert("meta"@[0] != "body"@[0]);
        assert("meta"@[1] != "main"@[1]);
        assert("title"@[0] != "aside"@[0]);
        assert("title"@[1] != "table"@[1]);
        assert("title"@[1] != "thead"@[1]);
        assert("title"@[1] != "tbody"@[1]);
        assert("title"@[1] != "tfoot"@[1]);
        assert("link"@[0] != "html"@[0]);
        assert("link"@[0] != "body"@[0]);
        assert("link"@[0] != "main"@[0]);
    }
}

/// Before any style applies, exactly the bold tags are bold.
pub proof fn law_default_weight_by_tag_kind(tag: Seq<char>)
    ensures
        default_weight(tag) == (if bold_tags().contains(tag) { FontWeight::Bold } else { FontWeight::Normal }),
{
}

/// The display of a tag before any style applies.
pub fn default_display_for_tag(tag: &str) -> (r: Display)
    ensures
        r == default_display(tag@),
{
    if str_equal(tag, "html") || str_equal(tag, "body") || str_equal(tag, "div") || str_equal(tag, "section") || str_equal(tag, "article") || str_equal(tag, "header") || str_equal(tag, "footer") || str_equal(tag, "main") || str_equal(tag, "aside") || str_equal(tag, "nav") || str_equal(tag, "p") || str_equal(tag, "h1") || str_equal(tag, "h2") || str_equal(tag, "h3") || str_equal(tag, "h4") || str_equal(tag, "h5") || str_equal(tag, "h6") || str_equal(tag, "table") || str_equal(tag, "thead") || str_equal(tag, "tbody") || str_equal(tag, "tfoot") || str_equal(tag, "tr") || str_equal(tag, "td") || str_equal(tag, "th") {
        Display::Block
    } else if str_equal(tag, "head") || str_equal(tag, "style") || str_equal(tag, "script") || str_equal(tag, "meta") || str_equal(tag, "title") || str_equal(tag, "link") {
        Display::NoDisplay
    } else {
        Display::Inline
    }
}

/// The weight that an element has before any style applies: bold for `b`,
/// `strong` and the first four heading levels.
pub open spec fn default_weight(tag: Seq<char>) -> FontWeight {
    if tag == "b"@ || tag == "strong"@ || tag == "h1"@ || tag == "h2"@ || tag == "h3"@ || tag == "h4"@ {
        FontWeight::Bold
    } else {
        FontWeight::Normal
    }
}

/// The weight of a tag before any style applies.
pub fn default_font_weight_for_tag(tag: &str) -> (r: FontWeight)
    ensures
        r == default_weight(tag@),
{
    if str_equal(tag, "b") || str_equal(tag, "strong") || str_equal(tag, "h1") || str_equal(tag, "h2") || str_equal(tag, "h3") || str_equal(tag, "h4") {
        FontWeight::Bold
    } else {
        FontWeight::Normal
    }
}

/// The direction that a `dir` attribute sets: `rtl` or `ltr` exactly;
/// any other value, or none, sets nothing.
pub open spec fn dir_attribute_direction(value: Option<Seq<char>>) -> Option<Direction> {
    match value {
        Some(v) => if v == "rtl"@ {
            Some(Direction::RTL)
        } else if v == "ltr"@ {
            Some(Direction::LTR)
        } else {
            None
        },
        None => None,
    }
}

/// A `dir` attribute sets a direction exactly when its value is that
/// direction's keyword, in lower case; no attribute sets none.
pub proof fn law_dir_attribute_names_direction(value: Seq<char>, d: Direction)
    ensures
        dir_attribute_direction(Some(value)) == Some(d) <==> value == direction_keyword_name(d),
        dir_attribute_direction(None) == None::<Direction>,
{
    reveal_strlit("rtl");
    reveal_strlit("ltr");
    assert("rtl"@[0] != "ltr"@[0]);
}

/// The direction that an element's `dir` attribute sets.
pub fn direction_from_dir_attribute(value: Option<&str>) -> (r: Option<Direction>)
    ensures
        r == dir_attribute_direction(crate::html::types::opt_str_view(value)),
{
    match value {
        Some(v) => if str_equal(v, "rtl") {
            Some(Direction::RTL)
        } else if str_equal(v, "ltr") {
            Some(Direction::LTR)
        } else {
            None
        },
        None => None,
    }
}

} // verus!
