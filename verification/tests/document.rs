use resid::cli::Args;
use resid::composition::{
    collect_raw_text, collect_stylesheet_text, combine_stylesheets, default_display_for_tag,
    default_font_weight_for_tag, direction_from_dir_attribute,
};
use resid::css::types::{Display, FontWeight, ListStyleType, TextAlign, WhiteSpace};
use resid::document::{
    is_table_section, line_anchor, list_marker, normalize_text, LayoutEngine, LineAnchor, LineBreaker,
    PageKind,
};
use resid::error::AppError;
use resid::font::loader::Font;
use resid::html::parser::HtmlParser;
use resid::html::types::Node;
use resid::units::Direction;

#[test]
fn normal_white_space_collapses_runs_and_trims() {
    assert_eq!(normalize_text("  a \n\t b  c ", WhiteSpace::Normal), "a b c");
    assert_eq!(normalize_text("one", WhiteSpace::NoWrap), "one");
    assert_eq!(normalize_text(" \u{a0}\u{3000} ", WhiteSpace::Normal), "");
}

#[test]
fn preformatted_text_keeps_spaces_and_turns_crlf_into_lf() {
    assert_eq!(normalize_text(" a\r\n  b\r", WhiteSpace::Pre), " a\n  b\r");
    assert_eq!(normalize_text("x\r\r\ny", WhiteSpace::PreWrap), "x\r\ny");
}

#[test]
fn normalizing_twice_changes_nothing_for_normal_text() {
    let once = normalize_text(" a  b\tc ", WhiteSpace::Normal);
    assert_eq!(normalize_text(&once, WhiteSpace::Normal), once);
}

#[test]
fn page_sizes_are_found_by_name_in_any_case() {
    assert_eq!(PageKind::from_name("a4"), Some(PageKind::A4Portrait));
    assert_eq!(PageKind::from_name("A4-LANDSCAPE"), Some(PageKind::A4Landscape));
    assert_eq!(PageKind::from_name("a3"), Some(PageKind::A3));
    assert_eq!(PageKind::from_name("letter"), None);
    for kind in [PageKind::A3, PageKind::A4Portrait, PageKind::A4Landscape, PageKind::A5, PageKind::A6] {
        assert_eq!(PageKind::from_name(kind.name()), Some(kind));
    }
}

#[test]
fn layout_engine_sets_text_in_its_font() {
    let font = Font { family: "Vazirmatn".to_string(), data: vec![1] };
    let engine = LayoutEngine::new(&font);
    assert_eq!(engine.text_font().family, "Vazirmatn");
}

#[test]
fn collects_embedded_style_sheets_in_order() {
    let document = HtmlParser::parse(
        "<html><head><style>a { color: red; }</style></head><body><p>x</p><style>b {}</style></body></html>",
    )
    .unwrap();
    assert_eq!(collect_stylesheet_text(&document), "a { color: red; }\nb {}\n");
}

#[test]
fn raw_text_is_the_text_of_all_descendants() {
    let document = HtmlParser::parse("<p>a<b>b<i>c</i></b>d</p>").unwrap();
    let mut out = String::from(">");
    collect_raw_text(&document.children, &mut out);
    assert_eq!(out, ">abcd");
    assert!(matches!(document.children[0], Node::Element(_)));
}

#[test]
fn extra_style_sheet_is_appended_after_a_newline() {
    assert_eq!(combine_stylesheets("a{}".to_string(), "b{}"), "a{}\nb{}");
    assert_eq!(combine_stylesheets("a{}".to_string(), "  \n "), "a{}");
}

#[test]
fn default_styles_follow_the_tag() {
    assert_eq!(default_display_for_tag("div"), Display::Block);
    assert_eq!(default_display_for_tag("td"), Display::Block);
    assert_eq!(default_display_for_tag("head"), Display::NoDisplay);
    assert_eq!(default_display_for_tag("span"), Display::Inline);
    assert_eq!(default_display_for_tag("strong"), Display::Inline);
    assert_eq!(default_font_weight_for_tag("h2"), FontWeight::Bold);
    assert_eq!(default_font_weight_for_tag("b"), FontWeight::Bold);
    assert_eq!(default_font_weight_for_tag("h5"), FontWeight::Normal);
    assert_eq!(default_font_weight_for_tag("p"), FontWeight::Normal);
}

#[test]
fn dir_attribute_sets_the_direction() {
    assert_eq!(direction_from_dir_attribute(Some("rtl")), Some(Direction::RTL));
    assert_eq!(direction_from_dir_attribute(Some("ltr")), Some(Direction::LTR));
    assert_eq!(direction_from_dir_attribute(Some("RTL")), None);
    assert_eq!(direction_from_dir_attribute(None), None);
}

#[test]
fn html_file_names_are_read_from_disk() {
    let args = |from: &str| Args {
        from: from.to_string(),
        create: "out.pdf".to_string(),
        font: "Vazirmatn".to_string(),
        page: "a4".to_string(),
    };
    assert!(args("invoice.html").source_is_file());
    assert!(!args("<p>hi</p>").source_is_file());
    assert!(!args("html").source_is_file());
    assert!(!args("invoice.HTML").source_is_file());
}

#[test]
fn error_messages_name_the_stage() {
    assert_eq!(AppError::FontError("x".to_string()).message(), "font error: x");
    assert_eq!(AppError::PdfWriter("y".to_string()).message(), "PDF writer error: y");
}

#[test]
fn list_markers_follow_the_style() {
    assert_eq!(list_marker(ListStyleType::Disc), "\u{2022} ");
    assert_eq!(list_marker(ListStyleType::Circle), "\u{25cb} ");
    assert_eq!(list_marker(ListStyleType::Square), "\u{25a0} ");
    assert_eq!(list_marker(ListStyleType::Decimal), "1. ");
    assert_eq!(list_marker(ListStyleType::NoMarker), "");
}

#[test]
fn table_sections_are_head_body_and_foot() {
    assert!(is_table_section("thead"));
    assert!(is_table_section("tbody"));
    assert!(is_table_section("tfoot"));
    assert!(!is_table_section("tr"));
    assert!(!is_table_section("THEAD"));
}

#[test]
fn line_breaker_fills_lines_greedily() {
    let mut breaker = LineBreaker::new();
    assert_eq!(breaker.candidate("one"), "one");
    breaker.push_word("one", false);
    assert_eq!(breaker.candidate("two"), "one two");
    breaker.push_word("two", true);
    assert_eq!(breaker.candidate("three"), "one two three");
    breaker.push_word("three", false);
    breaker.push_word("four", false);
    assert_eq!(breaker.finish(), vec!["one two".to_string(), "three".to_string(), "four".to_string()]);
}

#[test]
fn line_breaking_keeps_every_word_in_order() {
    let words = ["a", "bb", "ccc", "d", "ee"];
    let fits = [true, false, true, true, false];
    let mut breaker = LineBreaker::new();
    for (word, fit) in words.iter().zip(fits.iter()) {
        breaker.push_word(word, *fit);
    }
    let lines = breaker.finish();
    assert_eq!(lines.join(" "), words.join(" "));
    assert!(LineBreaker::new().finish().is_empty());
}

#[test]
fn lines_start_where_the_writing_direction_begins() {
    assert_eq!(line_anchor(Direction::LTR, TextAlign::Start), LineAnchor::Left);
    assert_eq!(line_anchor(Direction::RTL, TextAlign::Start), LineAnchor::Right);
    assert_eq!(line_anchor(Direction::RTL, TextAlign::Justify), LineAnchor::Right);
    assert_eq!(line_anchor(Direction::RTL, TextAlign::Left), LineAnchor::Left);
    assert_eq!(line_anchor(Direction::LTR, TextAlign::Center), LineAnchor::Center);
    assert_eq!(line_anchor(Direction::LTR, TextAlign::Right), LineAnchor::Right);
}
