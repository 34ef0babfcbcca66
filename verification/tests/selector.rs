use resid::css::selector::{CaseSensitivity, CssAtom, DomElement, PdfPseudoClass, PdfSelectorParser};
use resid::html::types::{Attribute, Document, Element, Node};

fn element(tag: &str, id: Option<&str>, classes: &[&str], children: Vec<Node>) -> Element {
    Element {
        tag_name: tag.to_owned(),
        id: id.map(str::to_owned),
        classes: classes.iter().map(|class| (*class).to_owned()).collect(),
        attributes: Vec::new(),
        children,
    }
}

fn invoice() -> Document {
    let mut total = element("div", Some("total"), &["row", "important"], vec![]);
    total.attributes.push(Attribute { name: "data-kind".to_owned(), value: "total".to_owned() });
    total.attributes.push(Attribute { name: "href".to_owned(), value: "#".to_owned() });
    Document {
        children: vec![Node::Element(element(
            "invoice",
            None,
            &[],
            vec![
                Node::Element(element("div", None, &["row"], vec![])),
                Node::Text(" ".to_owned()),
                Node::Element(total),
                Node::Element(element("span", None, &[], vec![Node::Text("x".to_owned())])),
            ],
        ))],
    }
}

#[test]
fn navigates_between_element_siblings_over_text() {
    let document = invoice();
    let second = DomElement::new(&document, vec![0, 2]);
    assert_eq!(second.element().map(|e| e.tag_name.as_str()), Some("div"));
    let prev = second.prev_sibling_element().expect("previous element");
    assert_eq!(prev.path, vec![0, 0]);
    let next = second.next_sibling_element().expect("next element");
    assert_eq!(next.path, vec![0, 3]);
    assert!(prev.prev_sibling_element().is_none());
    assert!(next.next_sibling_element().is_none());
}

#[test]
fn finds_parent_and_first_child() {
    let document = invoice();
    let root = DomElement::new(&document, vec![0]);
    assert!(root.is_root());
    assert!(root.parent_element().is_none());
    let first = root.first_element_child().expect("first child");
    assert_eq!(first.path, vec![0, 0]);
    assert_eq!(first.parent_element().map(|p| p.path), Some(vec![0]));
    assert!(!first.is_root());
}

#[test]
fn matches_names_ids_classes_and_attributes() {
    let document = invoice();
    let total = DomElement::new(&document, vec![0, 2]);
    assert!(total.has_local_name("div"));
    assert!(!total.has_local_name("span"));
    assert!(total.has_id("total", CaseSensitivity::CaseSensitive));
    assert!(!total.has_id("TOTAL", CaseSensitivity::CaseSensitive));
    assert!(total.has_id("TOTAL", CaseSensitivity::AsciiCaseInsensitive));
    assert!(total.has_class("important", CaseSensitivity::CaseSensitive));
    assert!(!total.has_class("missing", CaseSensitivity::CaseSensitive));
    assert_eq!(total.attribute_ignoring_case("DATA-KIND"), Some("total"));
    assert!(total.is_link());
    assert!(total.match_non_ts_pseudo_class(PdfPseudoClass::AnyLink));
    assert!(total.match_non_ts_pseudo_class(PdfPseudoClass::Enabled));
    assert!(!total.match_non_ts_pseudo_class(PdfPseudoClass::Hover));
    let first = DomElement::new(&document, vec![0, 0]);
    assert!(first.is_same_type(&total));
    assert!(first.is_empty());
    assert!(!DomElement::new(&document, vec![0, 3]).is_empty());
}

#[test]
fn a_path_without_an_element_matches_nothing() {
    let document = invoice();
    let text = DomElement::new(&document, vec![0, 1]);
    assert!(text.element().is_none());
    assert!(!text.has_local_name("div"));
    assert!(!text.match_non_ts_pseudo_class(PdfPseudoClass::Enabled));
    assert!(DomElement::new(&document, vec![5]).element().is_none());
}

#[test]
fn parser_knows_its_pseudo_classes() {
    let parser = PdfSelectorParser;
    assert_eq!(parser.parse_non_ts_pseudo_class("hover"), Some(PdfPseudoClass::Hover));
    assert_eq!(parser.parse_non_ts_pseudo_class("READ-ONLY"), Some(PdfPseudoClass::ReadOnly));
    assert_eq!(parser.parse_non_ts_pseudo_class("nope"), None);
    assert_eq!(PdfPseudoClass::FocusWithin.css_text(), ":focus-within");
    assert!(!PdfPseudoClass::Active.is_active_or_hover());
    assert!(!PdfPseudoClass::Hover.is_user_action_state());
    assert!(!parser.allow_forgiving_selectors());
    assert!(parser.parse_nth_child_of());
    assert!(parser.parse_is_and_where());
    assert!(parser.parse_has());
}

#[test]
fn atom_hash_is_fnv1a_of_its_bytes() {
    assert_eq!(CssAtom::from_str_value("").precomputed_hash(), 0x811c9dc5);
    assert_eq!(CssAtom::from_str_value("a").precomputed_hash(), 0xe40c292c);
    assert_eq!(CssAtom::from_str_value("foobar").precomputed_hash(), 0xbf9cf968);
    assert_eq!(CssAtom::from_str_value("total").as_str(), "total");
}

#[test]
fn pseudo_class_text_is_the_lowered_name() {
    let parser = PdfSelectorParser;
    for name in ["FOCUS-within", "Read-Write", "any-LINK", "checked"] {
        let pc = parser.parse_non_ts_pseudo_class(name).expect("known pseudo-class");
        assert_eq!(pc.css_text(), format!(":{}", name.to_ascii_lowercase()));
    }
}
