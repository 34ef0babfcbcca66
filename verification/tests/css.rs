use resid::css::cascade::{cascade_winners, selector_list_specificity, CascadeKey};
use resid::css::parser::{
    declaration_tokens, length_unit_named, parse_declaration_list, split_declarations, DeclToken,
    LengthUnit, RawDeclaration, parse_color, parse_direction, parse_display, parse_font_family, parse_font_weight,
    parse_justify_content, parse_text_align, property_from_name, strip_important,
};
use resid::css::rules::Property;
use resid::css::types::{Color, Display, FontWeight, JustifyContent, TextAlign};
use resid::units::Direction;

#[test]
fn different_properties_are_not_equal() {
    assert_ne!(Property::Margin, Property::Padding);
    assert_ne!(Property::Color, Property::BackgroundColor);
}

#[test]
fn color_rgb_keeps_its_channels() {
    let c = Color::rgb(1, 2, 3);
    assert_eq!((c.r, c.g, c.b), (1, 2, 3));
    assert_eq!(Color::black(), Color::rgb(0, 0, 0));
    assert_eq!(Color::white(), Color::rgb(255, 255, 255));
}

#[test]
fn parses_six_digit_hex_color() {
    assert_eq!(parse_color("#ff0000"), Some(Color::rgb(255, 0, 0)));
    assert_eq!(parse_color("  #123456 "), Some(Color::rgb(0x12, 0x34, 0x56)));
    assert_eq!(parse_color("#eeeeee"), Some(Color::rgb(238, 238, 238)));
}

#[test]
fn three_digit_hex_color_repeats_each_digit() {
    assert_eq!(parse_color("#abc"), Some(Color::rgb(0xaa, 0xbb, 0xcc)));
    assert_eq!(parse_color("#F0f"), Some(Color::rgb(255, 0, 255)));
}

#[test]
fn rejects_malformed_hex_color() {
    assert_eq!(parse_color("#12"), None);
    assert_eq!(parse_color("#ggg"), None);
    assert_eq!(parse_color("#1234567"), None);
}

#[test]
fn parses_rgb_function_color() {
    assert_eq!(parse_color("rgb(10, 20, 30)"), Some(Color::rgb(10, 20, 30)));
}

#[test]
fn parses_named_colors_in_any_case() {
    assert_eq!(parse_color("blue"), Some(Color::rgb(0, 0, 255)));
    assert_eq!(parse_color("Grey"), Some(Color::rgb(128, 128, 128)));
    assert_eq!(parse_color("GREEN"), Some(Color::rgb(0, 128, 0)));
    assert_eq!(parse_color("purple"), None);
}

#[test]
fn property_names_ignore_case_and_alias_background() {
    assert_eq!(property_from_name("MARGIN"), Some(Property::Margin));
    assert_eq!(property_from_name("background"), Some(Property::BackgroundColor));
    assert_eq!(property_from_name("background-color"), Some(Property::BackgroundColor));
    assert_eq!(property_from_name("font-size"), Some(Property::FontSize));
    assert_eq!(property_from_name("not-a-property"), None);
}

#[test]
fn property_names_are_the_supported_ones() {
    assert_eq!(property_from_name("width"), Some(Property::Width));
    assert_eq!(property_from_name("Justify-Content"), Some(Property::JustifyContent));
    assert_eq!(property_from_name("line-height"), Some(Property::LineHeight));
    assert_eq!(property_from_name("position"), None);
    assert_eq!(property_from_name("height"), None);
    assert_eq!(property_from_name("opacity"), None);
    assert_eq!(property_from_name("page-break-before"), None);
}

#[test]
fn parses_display_keywords() {
    assert_eq!(parse_display("flex"), Some(Display::Flex));
    assert_eq!(parse_display(" BLOCK "), Some(Display::Block));
    assert_eq!(parse_display("none"), Some(Display::NoDisplay));
    assert_eq!(parse_display("flex block"), None);
    assert_eq!(parse_display("grid"), None);
    assert_eq!(parse_display("Inline"), Some(Display::Inline));
    assert_eq!(parse_display("inline-block"), None);
    assert_eq!(parse_display("table-cell"), None);
    assert_eq!(parse_display("list-item"), None);
}

#[test]
fn parses_other_keywords() {
    assert_eq!(parse_direction("rtl"), Some(Direction::RTL));
    assert_eq!(parse_direction("LTR"), Some(Direction::LTR));
    assert_eq!(parse_text_align("center"), Some(TextAlign::Center));
    assert_eq!(parse_justify_content("space-between"), Some(JustifyContent::SpaceBetween));
    assert_eq!(parse_text_align("middle"), None);
    assert_eq!(parse_text_align("START"), Some(TextAlign::Start));
    assert_eq!(parse_text_align("justify"), None);
}

#[test]
fn parses_font_weight_keywords_and_numbers() {
    assert_eq!(parse_font_weight("bold"), Some(FontWeight::Bold));
    assert_eq!(parse_font_weight("Normal"), Some(FontWeight::Normal));
    assert_eq!(parse_font_weight("400"), Some(FontWeight::Normal));
    assert_eq!(parse_font_weight("700"), Some(FontWeight::Bold));
    assert_eq!(parse_font_weight("500"), Some(FontWeight::Bold));
    assert_eq!(parse_font_weight("450"), None);
    assert_eq!(parse_font_weight("lighter"), None);
}

#[test]
fn parses_first_font_family_without_quotes() {
    assert_eq!(parse_font_family(" 'B Nazanin', serif"), Some("B Nazanin".to_string()));
    assert_eq!(parse_font_family("\"Vazirmatn\""), Some("Vazirmatn".to_string()));
    assert_eq!(parse_font_family("   "), None);
}

#[test]
fn strips_important_flag() {
    assert_eq!(strip_important("red !important"), ("red".to_string(), true));
    assert_eq!(strip_important("  10pt  !IMPORTANT "), ("10pt".to_string(), true));
    assert_eq!(strip_important("  blue "), ("blue".to_string(), false));
    assert_eq!(strip_important("!important"), ("".to_string(), true));
}

fn key(important: bool, specificity: u32, order: usize) -> CascadeKey {
    CascadeKey { important, specificity, order }
}

#[test]
fn important_declaration_wins_over_normal() {
    let cands = vec![
        (Property::Color, key(true, 1, 0)),
        (Property::Color, key(false, 100, 1)),
    ];
    assert_eq!(cascade_winners(&cands), vec![(Property::Color, 0)]);
}

#[test]
fn higher_specificity_wins_and_later_wins_ties() {
    let cands = vec![
        (Property::Margin, key(false, 10, 0)),
        (Property::Color, key(false, 1, 1)),
        (Property::Margin, key(false, 1, 2)),
        (Property::Color, key(false, 1, 3)),
    ];
    assert_eq!(cascade_winners(&cands), vec![(Property::Margin, 0), (Property::Color, 3)]);
}

#[test]
fn inline_declaration_wins_over_stylesheet() {
    let cands = vec![
        (Property::FontSize, key(false, 100, 5)),
        (Property::FontSize, key(false, u32::MAX, usize::MAX)),
        (Property::FontSize, key(false, 200, 6)),
    ];
    assert_eq!(cascade_winners(&cands), vec![(Property::FontSize, 1)]);
}

#[test]
fn equal_keys_keep_the_first_declaration() {
    let cands = vec![
        (Property::FontSize, key(false, u32::MAX, usize::MAX)),
        (Property::FontSize, key(false, u32::MAX, usize::MAX)),
    ];
    assert_eq!(cascade_winners(&cands), vec![(Property::FontSize, 0)]);
}

#[test]
fn selector_list_specificity_is_the_greatest() {
    assert_eq!(selector_list_specificity(&vec![]), 0);
    assert_eq!(selector_list_specificity(&vec![3, 1 << 20, 1 << 10]), 1 << 20);
}

#[test]
fn length_units_are_named_in_any_case() {
    assert_eq!(length_unit_named("pt"), Some(LengthUnit::Pt));
    assert_eq!(length_unit_named("PX"), Some(LengthUnit::Px));
    assert_eq!(length_unit_named("Mm"), Some(LengthUnit::Mm));
    assert_eq!(length_unit_named("em"), None);
}

fn raw(property: Property, value: &str, important: bool) -> RawDeclaration {
    RawDeclaration { property, value: value.to_string(), important }
}

#[test]
fn cascade_lists_properties_in_first_declared_order() {
    let cands = vec![
        (Property::Width, key(false, 1, 0)),
        (Property::Color, key(false, 1, 1)),
        (Property::Width, key(false, 5, 2)),
        (Property::Margin, key(false, 1, 3)),
    ];
    assert_eq!(
        cascade_winners(&cands),
        vec![(Property::Width, 2), (Property::Color, 1), (Property::Margin, 3)]
    );
}

#[test]
fn declaration_tokens_mark_spans() {
    assert_eq!(
        declaration_tokens("a: b;"),
        vec![
            (DeclToken::Ident("a".to_string()), 0, 1),
            (DeclToken::Colon, 1, 2),
            (DeclToken::Ident("b".to_string()), 3, 4),
            (DeclToken::Semicolon, 4, 5),
        ]
    );
    assert_eq!(
        declaration_tokens("x: f(1, 2) 3"),
        vec![
            (DeclToken::Ident("x".to_string()), 0, 1),
            (DeclToken::Colon, 1, 2),
            (DeclToken::Other, 3, 5),
            (DeclToken::Other, 11, 12),
        ]
    );
    assert_eq!(declaration_tokens(" /* only a comment */ "), vec![]);
}

#[test]
fn split_declarations_follows_the_given_tokens() {
    let tokens = vec![
        (DeclToken::Ident("color".to_string()), 0, 1),
        (DeclToken::Colon, 1, 2),
        (DeclToken::Other, 2, 3),
        (DeclToken::Semicolon, 3, 4),
    ];
    assert_eq!(
        split_declarations("x:y;", &tokens),
        Some(vec![raw(Property::Color, "y", false)])
    );
}

#[test]
fn declaration_list_reads_one_declaration() {
    assert_eq!(
        parse_declaration_list("font-size: 20pt;"),
        Some(vec![raw(Property::FontSize, "20pt", false)])
    );
}

#[test]
fn declaration_list_reads_declarations_in_order() {
    assert_eq!(
        parse_declaration_list("font-size: 20pt; color: red; text-align: center;"),
        Some(vec![
            raw(Property::FontSize, "20pt", false),
            raw(Property::Color, "red", false),
            raw(Property::TextAlign, "center", false),
        ])
    );
}

#[test]
fn declaration_list_keeps_function_values() {
    assert_eq!(
        parse_declaration_list("color: rgb(10, 20, 30);"),
        Some(vec![raw(Property::Color, "rgb(10, 20, 30)", false)])
    );
    assert_eq!(
        parse_declaration_list("margin: 10pt 20pt;"),
        Some(vec![raw(Property::Margin, "10pt 20pt", false)])
    );
}

#[test]
fn declaration_list_value_closed_by_the_end_stops_at_its_last_token() {
    assert_eq!(
        parse_declaration_list("width: auto"),
        Some(vec![raw(Property::Width, "auto", false)])
    );
    // cssparser leaves a function's arguments unread until the next token is
    // asked for, so a function at the very end contributes only its opening.
    assert_eq!(
        parse_declaration_list("color: rgb(10, 20, 30)"),
        Some(vec![raw(Property::Color, "rgb(", false)])
    );
}

#[test]
fn declaration_list_reads_important() {
    assert_eq!(
        parse_declaration_list("font-size: 20pt !important;"),
        Some(vec![raw(Property::FontSize, "20pt", true)])
    );
    assert_eq!(
        parse_declaration_list("COLOR: Blue !IMPORTANT"),
        Some(vec![raw(Property::Color, "Blue", true)])
    );
}

#[test]
fn declaration_list_drops_unknown_properties() {
    assert_eq!(
        parse_declaration_list("unknown-property: hello; color: red;"),
        Some(vec![raw(Property::Color, "red", false)])
    );
}

#[test]
fn declaration_list_drops_unsupported_properties() {
    assert_eq!(
        parse_declaration_list("position: absolute; width: 5pt; opacity: 0.5"),
        Some(vec![raw(Property::Width, "5pt", false)])
    );
}

#[test]
fn declaration_list_recovers_at_the_next_semicolon() {
    assert_eq!(
        parse_declaration_list("color red; margin: 1pt"),
        Some(vec![raw(Property::Margin, "1pt", false)])
    );
    assert_eq!(
        parse_declaration_list("12px; width: 5pt; color: red"),
        Some(vec![raw(Property::Width, "5pt", false), raw(Property::Color, "red", false)])
    );
    // A stray semicolon is itself skipped up to the next one.
    assert_eq!(
        parse_declaration_list(";color: red; width: 5pt;"),
        Some(vec![raw(Property::Width, "5pt", false)])
    );
}

#[test]
fn declaration_list_edge_cases() {
    assert_eq!(parse_declaration_list(""), Some(vec![]));
    assert_eq!(parse_declaration_list("   "), Some(vec![]));
    assert_eq!(parse_declaration_list("color:"), Some(vec![raw(Property::Color, "", false)]));
    assert_eq!(parse_declaration_list("color: red;;"), Some(vec![raw(Property::Color, "red", false)]));
    assert_eq!(
        parse_declaration_list("color: /* c */ red;"),
        Some(vec![raw(Property::Color, "/* c */ red", false)])
    );
}

#[test]
fn declaration_list_refuses_a_value_cut_inside_a_character() {
    assert_eq!(parse_declaration_list("color: \u{e9}aaaaaaaaa;"), None);
    assert_eq!(
        parse_declaration_list("color: \u{e9}aaaaaaaa;"),
        Some(vec![raw(Property::Color, "\u{e9}aaaaaaaa", false)])
    );
}
