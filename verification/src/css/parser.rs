//! Parsing declarations: splitting a declaration list into declarations,
//! property names, keywords, colours and font families. The tokenizer is
//! cssparser's; what is decided from its tokens is verified here.
use cssparser::{Parser, Token};
use vstd::prelude::*;

use super::rules::Property;
use super::types::{Color, Display, FontWeight, JustifyContent, TextAlign};
use crate::html::types::opt_string_view;
use crate::text::{
    ascii_lower, lemma_lower_ascii_of_match, lower_ascii,
    chars_eq_ignore_ascii_case, chars_of, eq_ignore_ascii_case, split_at_char, split_chars_at,
    str_eq_ignore_ascii_case, string_from_chars, strip_chars, trim, trim_chars, trim_end,
    trim_end_chars, trim_quotes,
};
use vstd::utf8::{encode_utf8, is_char_boundary};
use crate::font::shaper::slice_text;
use crate::units::Direction;
use vstd::string::StringSliceAdditionalSpecFns;
use vstd::utf8::decode_utf8;

verus! {

/// The CSS parser. Reading style sheets, and turning declaration values
/// into lengths in points, live with the layout code; the declaration
/// lists, keywords, colours and families they read are decided below.
pub struct CssParser;

/// The name of the identifier token that `input` consists of, as
/// cssparser's tokenizer reads it (white space and comments around it
/// skipped), or `None` where `input` is not exactly one identifier.
pub uninterp spec fn css_single_ident(input: Seq<char>) -> Option<Seq<char>>;

/// Tokenizes `input` with cssparser: takes the first token, requires that
/// nothing but white space or comments follows, and returns the token's
/// name where it is an identifier. The contract claims only that the
/// result is a function of `input`, named `css_single_ident`.
#[verifier::external_body]
fn single_ident(input: &str) -> (r: Option<String>)
    ensures
        opt_string_view(r) == css_single_ident(input@),
{
    let mut parser = Parser::new(input);
    let token = parser.next().ok()?.clone();
    parser.expect_exhausted().ok()?;
    match token {
        Token::Ident(name) => Some(name.as_ref().to_owned()),
        _ => None,
    }
}

/// The keyword value of a one-identifier declaration value, where `keyword`
/// maps the identifier to a value.
pub open spec fn keyword_value<T>(value: Seq<char>, keyword: spec_fn(Seq<char>) -> Option<T>) -> Option<T> {
    match css_single_ident(value) {
        Some(name) => keyword(name),
        None => None,
    }
}

/// The property that a declaration names, matched without regard to ASCII
/// case: the properties the renderer reads from style sheets and `style`
/// attributes; `background` is read as `background-color`.
pub open spec fn property_named(name: Seq<char>) -> Option<Property> {
    if eq_ignore_ascii_case(name, "display"@) {
        Some(Property::Display)
    } else if eq_ignore_ascii_case(name, "direction"@) {
        Some(Property::Direction)
    } else if eq_ignore_ascii_case(name, "font-family"@) {
        Some(Property::FontFamily)
    } else if eq_ignore_ascii_case(name, "font-size"@) {
        Some(Property::FontSize)
    } else if eq_ignore_ascii_case(name, "font-weight"@) {
        Some(Property::FontWeight)
    } else if eq_ignore_ascii_case(name, "line-height"@) {
        Some(Property::LineHeight)
    } else if eq_ignore_ascii_case(name, "text-align"@) {
        Some(Property::TextAlign)
    } else if eq_ignore_ascii_case(name, "color"@) {
        Some(Property::Color)
    } else if eq_ignore_ascii_case(name, "background"@) {
        Some(Property::BackgroundColor)
    } else if eq_ignore_ascii_case(name, "background-color"@) {
        Some(Property::BackgroundColor)
    } else if eq_ignore_ascii_case(name, "margin"@) {
        Some(Property::Margin)
    } else if eq_ignore_ascii_case(name, "padding"@) {
        Some(Property::Padding)
    } else if eq_ignore_ascii_case(name, "border"@) {
        Some(Property::Border)
    } else if eq_ignore_ascii_case(name, "width"@) {
        Some(Property::Width)
    } else if eq_ignore_ascii_case(name, "justify-content"@) {
        Some(Property::JustifyContent)
    } else {
        None
    }
}

/// The property that the name `name` stands for.
pub fn property_from_name(name: &str) -> (r: Option<Property>)
    ensures
        r == property_named(name@),
{
    if str_eq_ignore_ascii_case(name, "display") {
        Some(Property::Display)
    } else if str_eq_ignore_ascii_case(name, "direction") {
        Some(Property::Direction)
    } else if str_eq_ignore_ascii_case(name, "font-family") {
        Some(Property::FontFamily)
    } else if str_eq_ignore_ascii_case(name, "font-size") {
        Some(Property::FontSize)
    } else if str_eq_ignore_ascii_case(name, "font-weight") {
        Some(Property::FontWeight)
    } else if str_eq_ignore_ascii_case(name, "line-height") {
        Some(Property::LineHeight)
    } else if str_eq_ignore_ascii_case(name, "text-align") {
        Some(Property::TextAlign)
    } else if str_eq_ignore_ascii_case(name, "color") {
        Some(Property::Color)
    } else if str_eq_ignore_ascii_case(name, "background") {
        Some(Property::BackgroundColor)
    } else if str_eq_ignore_ascii_case(name, "background-color") {
        Some(Property::BackgroundColor)
    } else if str_eq_ignore_ascii_case(name, "margin") {
        Some(Property::Margin)
    } else if str_eq_ignore_ascii_case(name, "padding") {
        Some(Property::Padding)
    } else if str_eq_ignore_ascii_case(name, "border") {
        Some(Property::Border)
    } else if str_eq_ignore_ascii_case(name, "width") {
        Some(Property::Width)
    } else if str_eq_ignore_ascii_case(name, "justify-content") {
        Some(Property::JustifyContent)
    } else {
        None
    }
}

/// The value that an identifier names among the `display` keywords, matched without regard
/// to ASCII case.
pub open spec fn display_keyword(name: Seq<char>) -> Option<Display> {
    if eq_ignore_ascii_case(name, "block"@) {
        Some(Display::Block)
    } else if eq_ignore_ascii_case(name, "inline"@) {
        Some(Display::Inline)
    } else if eq_ignore_ascii_case(name, "none"@) {
        Some(Display::NoDisplay)
    } else if eq_ignore_ascii_case(name, "flex"@) {
        Some(Display::Flex)
    } else {
        None
    }
}

/// The value that the identifier `name` names among the `display` keywords.
pub fn display_from_keyword(name: &str) -> (r: Option<Display>)
    ensures
        r == display_keyword(name@),
{
    if str_eq_ignore_ascii_case(name, "block") {
        Some(Display::Block)
    } else if str_eq_ignore_ascii_case(name, "inline") {
        Some(Display::Inline)
    } else if str_eq_ignore_ascii_case(name, "none") {
        Some(Display::NoDisplay)
    } else if str_eq_ignore_ascii_case(name, "flex") {
        Some(Display::Flex)
    } else {
        None
    }
}

/// Parses a declaration value that is one identifier among the `display` keywords.
pub fn parse_display(value: &str) -> (r: Option<Display>)
    ensures
        r == keyword_value(value@, |n: Seq<char>| display_keyword(n)),
{
    match single_ident(value) {
        Some(name) => display_from_keyword(name.as_str()),
        None => None,
    }
}

/// The value that an identifier names among the `direction` keywords, matched without regard
/// to ASCII case.
pub open spec fn direction_keyword(name: Seq<char>) -> Option<Direction> {
    if eq_ignore_ascii_case(name, "rtl"@) {
        Some(Direction::RTL)
    } else if eq_ignore_ascii_case(name, "ltr"@) {
        Some(Direction::LTR)
    } else {
        None
    }
}

/// The value that the identifier `name` names among the `direction` keywords.
pub fn direction_from_keyword(name: &str) -> (r: Option<Direction>)
    ensures
        r == direction_keyword(name@),
{
    if str_eq_ignore_ascii_case(name, "rtl") {
        Some(Direction::RTL)
    } else if str_eq_ignore_ascii_case(name, "ltr") {
        Some(Direction::LTR)
    } else {
        None
    }
}

/// Parses a declaration value that is one identifier among the `direction` keywords.
pub fn parse_direction(value: &str) -> (r: Option<Direction>)
    ensures
        r == keyword_value(value@, |n: Seq<char>| direction_keyword(n)),
{
    match single_ident(value) {
        Some(name) => direction_from_keyword(name.as_str()),
        None => None,
    }
}

/// The value that an identifier names among the `text-align` keywords, matched without regard
/// to ASCII case.
pub open spec fn text_align_keyword(name: Seq<char>) -> Option<TextAlign> {
    if eq_ignore_ascii_case(name, "start"@) {
        Some(TextAlign::Start)
    } else if eq_ignore_ascii_case(name, "left"@) {
        Some(TextAlign::Left)
    } else if eq_ignore_ascii_case(name, "right"@) {
        Some(TextAlign::Right)
    } else if eq_ignore_ascii_case(name, "center"@) {
        Some(TextAlign::Center)
    } else {
        None
    }
}

/// The value that the identifier `name` names among the `text-align` keywords.
pub fn text_align_from_keyword(name: &str) -> (r: Option<TextAlign>)
    ensures
        r == text_align_keyword(name@),
{
    if str_eq_ignore_ascii_case(name, "start") {
        Some(TextAlign::Start)
    } else if str_eq_ignore_ascii_case(name, "left") {
        Some(TextAlign::Left)
    } else if str_eq_ignore_ascii_case(name, "right") {
        Some(TextAlign::Right)
    } else if str_eq_ignore_ascii_case(name, "center") {
        Some(TextAlign::Center)
    } else {
        None
    }
}

/// Parses a declaration value that is one identifier among the `text-align` keywords.
pub fn parse_text_align(value: &str) -> (r: Option<TextAlign>)
    ensures
        r == keyword_value(value@, |n: Seq<char>| text_align_keyword(n)),
{
    match single_ident(value) {
        Some(name) => text_align_from_keyword(name.as_str()),
        None => None,
    }
}

/// The value that an identifier names among the `font-weight` keywords, matched without regard
/// to ASCII case.
pub open spec fn font_weight_keyword(name: Seq<char>) -> Option<FontWeight> {
    if eq_ignore_ascii_case(name, "normal"@) {
        Some(FontWeight::Normal)
    } else if eq_ignore_ascii_case(name, "bold"@) {
        Some(FontWeight::Bold)
    } else {
        None
    }
}

/// The value that the identifier `name` names among the `font-weight` keywords.
pub fn font_weight_from_keyword(name: &str) -> (r: Option<FontWeight>)
    ensures
        r == font_weight_keyword(name@),
{
    if str_eq_ignore_ascii_case(name, "normal") {
        Some(FontWeight::Normal)
    } else if str_eq_ignore_ascii_case(name, "bold") {
        Some(FontWeight::Bold)
    } else {
        None
    }
}

/// The units in which a length can be written.
#[derive(Debug, Clone, Copy, PartialEq, Eq, Structural)]
pub enum LengthUnit {
    Pt,
    Px,
    In,
    Cm,
    Mm,
    Pc,
}

/// The unit that a dimension's unit name names, matched without regard to
/// ASCII case.
pub open spec fn length_unit_of(name: Seq<char>) -> Option<LengthUnit> {
    if eq_ignore_ascii_case(name, "pt"@) {
        Some(LengthUnit::Pt)
    } else if eq_ignore_ascii_case(name, "px"@) {
        Some(LengthUnit::Px)
    } else if eq_ignore_ascii_case(name, "in"@) {
        Some(LengthUnit::In)
    } else if eq_ignore_ascii_case(name, "cm"@) {
        Some(LengthUnit::Cm)
    } else if eq_ignore_ascii_case(name, "mm"@) {
        Some(LengthUnit::Mm)
    } else if eq_ignore_ascii_case(name, "pc"@) {
        Some(LengthUnit::Pc)
    } else {
        None
    }
}

/// The length unit that `name` names, or `None` for a unit that lengths
/// cannot be written in.
pub fn length_unit_named(name: &str) -> (r: Option<LengthUnit>)
    ensures
        r == length_unit_of(name@),
{
    if str_eq_ignore_ascii_case(name, "pt") {
        Some(LengthUnit::Pt)
    } else if str_eq_ignore_ascii_case(name, "px") {
        Some(LengthUnit::Px)
    } else if str_eq_ignore_ascii_case(name, "in") {
        Some(LengthUnit::In)
    } else if str_eq_ignore_ascii_case(name, "cm") {
        Some(LengthUnit::Cm)
    } else if str_eq_ignore_ascii_case(name, "mm") {
        Some(LengthUnit::Mm)
    } else if str_eq_ignore_ascii_case(name, "pc") {
        Some(LengthUnit::Pc)
    } else {
        None
    }
}

/// The IEEE-754 single-precision bits of the number token that `input`
/// consists of, as cssparser's tokenizer reads it (white space and
/// comments around it skipped), or `None` where `input` is not exactly one
/// number.
pub uninterp spec fn css_single_number_bits(input: Seq<char>) -> Option<u32>;

/// Tokenizes `input` with cssparser as `single_ident` does and returns
/// the bits (`f32::to_bits`) of the token's value where it is a number.
/// The contract claims only that the result is a function of `input`, named
/// `css_single_number_bits`.
#[verifier::external_body]
fn single_number_bits(input: &str) -> (r: Option<u32>)
    ensures
        r == css_single_number_bits(input@),
{
    let mut parser = Parser::new(input);
    let token = parser.next().ok()?.clone();
    parser.expect_exhausted().ok()?;
    match token {
        Token::Number { value, .. } => Some(value.to_bits()),
        _ => None,
    }
}

/// The weight that a number names: 400 is normal, 500 and above bold.
/// `bits` are the number's IEEE-754 single-precision bits: 400 is
/// `0x43C8_0000`, 500 is `0x43FA_0000` and positive infinity `0x7F80_0000`;
/// non-negative values that are not NaN are ordered as their bits are, and
/// no value but 400 itself lies within `f32::EPSILON` of 400.
pub open spec fn number_weight(bits: u32) -> Option<FontWeight> {
    if bits == 0x43C8_0000 {
        Some(FontWeight::Normal)
    } else if 0x43FA_0000 <= bits <= 0x7F80_0000 {
        Some(FontWeight::Bold)
    } else {
        None
    }
}

/// The weight that a declaration value names: one identifier among the
/// `font-weight` keywords, or one number.
pub open spec fn font_weight_value(value: Seq<char>) -> Option<FontWeight> {
    match css_single_ident(value) {
        Some(name) => font_weight_keyword(name),
        None => match css_single_number_bits(value) {
            Some(bits) => number_weight(bits),
            None => None,
        },
    }
}

/// Parses a `font-weight` value: `normal` or `bold` in any ASCII case, or
/// a number, of which 400 is normal and 500 and above bold.
pub fn parse_font_weight(value: &str) -> (r: Option<FontWeight>)
    ensures
        r == font_weight_value(value@),
{
    match single_ident(value) {
        Some(name) => font_weight_from_keyword(name.as_str()),
        None => match single_number_bits(value) {
            Some(bits) => {
                if bits == 0x43C8_0000 {
                    Some(FontWeight::Normal)
                } else if 0x43FA_0000 <= bits && bits <= 0x7F80_0000 {
                    Some(FontWeight::Bold)
                } else {
                    None
                }
            },
            None => None,
        },
    }
}

/// The value that an identifier names among the `justify-content` keywords, matched without regard
/// to ASCII case.
pub open spec fn justify_content_keyword(name: Seq<char>) -> Option<JustifyContent> {
    if eq_ignore_ascii_case(name, "flex-start"@) {
        Some(JustifyContent::FlexStart)
    } else if eq_ignore_ascii_case(name, "flex-end"@) {
        Some(JustifyContent::FlexEnd)
    } else if eq_ignore_ascii_case(name, "center"@) {
        Some(JustifyContent::Center)
    } else if eq_ignore_ascii_case(name, "space-between"@) {
        Some(JustifyContent::SpaceBetween)
    } else if eq_ignore_ascii_case(name, "space-around"@) {
        Some(JustifyContent::SpaceAround)
    } else if eq_ignore_ascii_case(name, "space-evenly"@) {
        Some(JustifyContent::SpaceEvenly)
    } else {
        None
    }
}

/// The value that the identifier `name` names among the `justify-content` keywords.
pub fn justify_content_from_keyword(name: &str) -> (r: Option<JustifyContent>)
    ensures
        r == justify_content_keyword(name@),
{
    if str_eq_ignore_ascii_case(name, "flex-start") {
        Some(JustifyContent::FlexStart)
    } else if str_eq_ignore_ascii_case(name, "flex-end") {
        Some(JustifyContent::FlexEnd)
    } else if str_eq_ignore_ascii_case(name, "center") {
        Some(JustifyContent::Center)
    } else if str_eq_ignore_ascii_case(name, "space-between") {
        Some(JustifyContent::SpaceBetween)
    } else if str_eq_ignore_ascii_case(name, "space-around") {
        Some(JustifyContent::SpaceAround)
    } else if str_eq_ignore_ascii_case(name, "space-evenly") {
        Some(JustifyContent::SpaceEvenly)
    } else {
        None
    }
}

/// Parses a declaration value that is one identifier among the `justify-content` keywords.
pub fn parse_justify_content(value: &str) -> (r: Option<JustifyContent>)
    ensures
        r == keyword_value(value@, |n: Seq<char>| justify_content_keyword(n)),
{
    match single_ident(value) {
        Some(name) => justify_content_from_keyword(name.as_str()),
        None => None,
    }
}

/// The value of a hexadecimal digit, either case.
pub open spec fn hex_digit_value(c: char) -> Option<u8> {
    if '0' <= c && c <= '9' {
        Some(((c as u32) - ('0' as u32)) as u8)
    } else if 'a' <= c && c <= 'f' {
        Some(((c as u32) - ('a' as u32) + 10) as u8)
    } else if 'A' <= c && c <= 'F' {
        Some(((c as u32) - ('A' as u32) + 10) as u8)
    } else {
        None
    }
}

/// `u8::from_str_radix(s, 16)` on a string of one or two characters: an
/// optional leading `+`, then hexadecimal digits.
pub open spec fn radix16_u8(s: Seq<char>) -> Option<u8> {
    if s.len() == 1 {
        hex_digit_value(s[0])
    } else if s.len() == 2 {
        if s[0] == '+' {
            hex_digit_value(s[1])
        } else {
            match (hex_digit_value(s[0]), hex_digit_value(s[1])) {
                (Some(a), Some(b)) => Some((a * 16 + b) as u8),
                _ => None,
            }
        }
    } else {
        None
    }
}

/// The colour that the digits after `#` stand for: three digits, each
/// repeated, or three pairs; anything else, or any non-ASCII character,
/// stands for none.
pub open spec fn hex_color(h: Seq<char>) -> Option<Color> {
    if exists|i: int| 0 <= i < h.len() && (h[i] as u32) >= 128 {
        None
    } else if h.len() == 3 {
        match (radix16_u8(h.subrange(0, 1)), radix16_u8(h.subrange(1, 2)), radix16_u8(h.subrange(2, 3))) {
            (Some(r), Some(g), Some(b)) => Some(Color { r: (r * 17) as u8, g: (g * 17) as u8, b: (b * 17) as u8 }),
            _ => None,
        }
    } else if h.len() == 6 {
        match (radix16_u8(h.subrange(0, 2)), radix16_u8(h.subrange(2, 4)), radix16_u8(h.subrange(4, 6))) {
            (Some(r), Some(g), Some(b)) => Some(Color { r, g, b }),
            _ => None,
        }
    } else {
        None
    }
}

/// The named colours, matched without regard to ASCII case.
pub open spec fn named_color(name: Seq<char>) -> Option<Color> {
    if eq_ignore_ascii_case(name, "black"@) {
        Some(Color { r: 0, g: 0, b: 0 })
    } else if eq_ignore_ascii_case(name, "white"@) {
        Some(Color { r: 255, g: 255, b: 255 })
    } else if eq_ignore_ascii_case(name, "red"@) {
        Some(Color { r: 255, g: 0, b: 0 })
    } else if eq_ignore_ascii_case(name, "green"@) {
        Some(Color { r: 0, g: 128, b: 0 })
    } else if eq_ignore_ascii_case(name, "blue"@) {
        Some(Color { r: 0, g: 0, b: 255 })
    } else if eq_ignore_ascii_case(name, "yellow"@) {
        Some(Color { r: 255, g: 255, b: 0 })
    } else if eq_ignore_ascii_case(name, "gray"@) {
        Some(Color { r: 128, g: 128, b: 128 })
    } else if eq_ignore_ascii_case(name, "grey"@) {
        Some(Color { r: 128, g: 128, b: 128 })
    } else if eq_ignore_ascii_case(name, "transparent"@) {
        Some(Color { r: 255, g: 255, b: 255 })
    } else {
        None
    }
}

/// The decimal value of a string of digits.
pub open spec fn decimal_value(s: Seq<char>) -> nat
    decreases s.len(),
{
    if s.len() == 0 {
        0
    } else {
        decimal_value(s.drop_last()) * 10 + ((s.last() as u32) - ('0' as u32)) as nat
    }
}

/// A channel of `rgb(...)`: a non-empty run of decimal digits, its value
/// clamped to 255.
pub open spec fn rgb_channel(s: Seq<char>) -> Option<u8> {
    if s.len() > 0 && forall|i: int| 0 <= i < s.len() ==> '0' <= #[trigger] s[i] && s[i] <= '9' {
        Some(if decimal_value(s) > 255 { 255u8 } else { decimal_value(s) as u8 })
    } else {
        None
    }
}

/// The colour of the functional notation `rgb(r, g, b)`, its name matched
/// without regard to ASCII case and white space allowed around each
/// channel.
pub open spec fn rgb_function_color(v: Seq<char>) -> Option<Color> {
    if v.len() >= 5 && eq_ignore_ascii_case(v.take(4), "rgb("@) && v.last() == ')' {
        let parts = split_at_char(v.subrange(4, v.len() - 1), ',');
        if parts.len() == 3 {
            match (rgb_channel(trim(parts[0])), rgb_channel(trim(parts[1])), rgb_channel(trim(parts[2]))) {
                (Some(r), Some(g), Some(b)) => Some(Color { r, g, b }),
                _ => None,
            }
        } else {
            None
        }
    } else {
        None
    }
}

/// The colour that a declaration value names: `#` with hexadecimal digits,
/// `rgb(...)`, or a colour name; white space around it is ignored.
pub open spec fn color_value(value: Seq<char>) -> Option<Color> {
    let v = trim(value);
    if v.len() > 0 && v[0] == '#' {
        hex_color(trim(v.drop_first()))
    } else if rgb_function_color(v) is Some {
        rgb_function_color(v)
    } else {
        named_color(v)
    }
}

/// The inputs on which reading the colour does not slice a string inside a
/// character: where the digits after `#` are three or six bytes long, the
/// byte offsets at which they are cut fall on character boundaries.
pub open spec fn color_slices_on_boundaries(value: Seq<char>) -> bool {
    let v = trim(value);
    v.len() > 0 && v[0] == '#' ==> {
        let b = encode_utf8(trim(v.drop_first()));
        &&& b.len() == 3 ==> is_char_boundary(b, 1) && is_char_boundary(b, 2)
        &&& b.len() == 6 ==> is_char_boundary(b, 2) && is_char_boundary(b, 4)
    }
}

fn hex_digit(c: char) -> (r: Option<u8>)
    ensures
        r == hex_digit_value(c),
{
    if '0' <= c && c <= '9' {
        Some((c as u8) - ('0' as u8))
    } else if 'a' <= c && c <= 'f' {
        Some((c as u8) - ('a' as u8) + 10)
    } else if 'A' <= c && c <= 'F' {
        Some((c as u8) - ('A' as u8) + 10)
    } else {
        None
    }
}

fn radix16_single(a: char) -> (r: Option<u8>)
    ensures
        r == radix16_u8(seq![a]),
{
    hex_digit(a)
}

fn radix16_pair(a: char, b: char) -> (r: Option<u8>)
    ensures
        r == radix16_u8(seq![a, b]),
{
    if a == '+' {
        hex_digit(b)
    } else {
        match (hex_digit(a), hex_digit(b)) {
            (Some(x), Some(y)) => Some(x * 16 + y),
            _ => None,
        }
    }
}

fn hex_color_of(h: &[char]) -> (r: Option<Color>)
    ensures
        r == hex_color(h@),
{
    let mut i: usize = 0;
    while i < h.len()
        invariant
            i <= h@.len(),
            forall|j: int| 0 <= j < i ==> (h@[j] as u32) < 128,
        decreases h@.len() - i,
    {
        if (h[i] as u32) >= 128 {
            return None;
        }
        i += 1;
    }
    if h.len() == 3 {
        assert(h@.subrange(0, 1) =~= seq![h@[0]]);
        assert(h@.subrange(1, 2) =~= seq![h@[1]]);
        assert(h@.subrange(2, 3) =~= seq![h@[2]]);
        match (radix16_single(h[0]), radix16_single(h[1]), radix16_single(h[2])) {
            (Some(r), Some(g), Some(b)) => Some(Color { r: r * 17, g: g * 17, b: b * 17 }),
            _ => None,
        }
    } else if h.len() == 6 {
        assert(h@.subrange(0, 2) =~= seq![h@[0], h@[1]]);
        assert(h@.subrange(2, 4) =~= seq![h@[2], h@[3]]);
        assert(h@.subrange(4, 6) =~= seq![h@[4], h@[5]]);
        match (radix16_pair(h[0], h[1]), radix16_pair(h[2], h[3]), radix16_pair(h[4], h[5])) {
            (Some(r), Some(g), Some(b)) => Some(Color { r, g, b }),
            _ => None,
        }
    } else {
        None
    }
}

fn named_color_of(name: &[char]) -> (r: Option<Color>)
    ensures
        r == named_color(name@),
{
    if chars_eq_ignore_ascii_case(name, chars_of("black").as_slice()) {
        Some(Color { r: 0, g: 0, b: 0 })
    } else if chars_eq_ignore_ascii_case(name, chars_of("white").as_slice()) {
        Some(Color { r: 255, g: 255, b: 255 })
    } else if chars_eq_ignore_ascii_case(name, chars_of("red").as_slice()) {
        Some(Color { r: 255, g: 0, b: 0 })
    } else if chars_eq_ignore_ascii_case(name, chars_of("green").as_slice()) {
        Some(Color { r: 0, g: 128, b: 0 })
    } else if chars_eq_ignore_ascii_case(name, chars_of("blue").as_slice()) {
        Some(Color { r: 0, g: 0, b: 255 })
    } else if chars_eq_ignore_ascii_case(name, chars_of("yellow").as_slice()) {
        Some(Color { r: 255, g: 255, b: 0 })
    } else if chars_eq_ignore_ascii_case(name, chars_of("gray").as_slice()) {
        Some(Color { r: 128, g: 128, b: 128 })
    } else if chars_eq_ignore_ascii_case(name, chars_of("grey").as_slice()) {
        Some(Color { r: 128, g: 128, b: 128 })
    } else if chars_eq_ignore_ascii_case(name, chars_of("transparent").as_slice()) {
        Some(Color { r: 255, g: 255, b: 255 })
    } else {
        None
    }
}

fn rgb_channel_of(s: &[char]) -> (r: Option<u8>)
    ensures
        r == rgb_channel(s@),
{
    if s.len() == 0 {
        return None;
    }
    let mut value: u32 = 0;
    let mut i: usize = 0;
    while i < s.len()
        invariant
            i <= s@.len(),
            forall|j: int| 0 <= j < i ==> '0' <= #[trigger] s@[j] && s@[j] <= '9',
            value == if decimal_value(s@.take(i as int)) > 256 { 256 } else { decimal_value(s@.take(i as int)) },
        decreases s@.len() - i,
    {
        let c = s[i];
        if !('0' <= c && c <= '9') {
            return None;
        }
        let d: u32 = (c as u32) - ('0' as u32);
        proof {
            let t = s@.take(i + 1);
            assert(t.drop_last() =~= s@.take(i as int));
            let x = decimal_value(s@.take(i as int));
            assert(decimal_value(t) == x * 10 + d);
        }
        let next: u32 = value * 10 + d;
        value = if next > 256 { 256 } else { next };
        i += 1;
    }
    assert(s@.take(s@.len() as int) =~= s@);
    Some(if value > 255 { 255 } else { value as u8 })
}

fn rgb_function_color_of(v: &[char]) -> (r: Option<Color>)
    ensures
        r == rgb_function_color(v@),
{
    let n = v.len();
    if n < 5 || v[n - 1] != ')' {
        return None;
    }
    let prefix = chars_of("rgb(");
    let mut head: Vec<char> = Vec::new();
    let mut i: usize = 0;
    while i < 4
        invariant
            i <= 4 <= n,
            n == v@.len(),
            head@ == v@.take(i as int),
        decreases 4 - i,
    {
        head.push(v[i]);
        i += 1;
        assert(head@ =~= v@.take(i as int));
    }
    if !chars_eq_ignore_ascii_case(head.as_slice(), prefix.as_slice()) {
        return None;
    }
    let mut inner: Vec<char> = Vec::new();
    let mut k: usize = 4;
    while k < n - 1
        invariant
            4 <= k <= n - 1,
            n == v@.len(),
            inner@ == v@.subrange(4, k as int),
        decreases n - 1 - k,
    {
        inner.push(v[k]);
        k += 1;
        assert(inner@ =~= v@.subrange(4, k as int));
    }
    let parts = split_chars_at(inner.as_slice(), ',');
    if parts.len() != 3 {
        return None;
    }
    let p0 = trim_chars(parts[0].as_slice());
    let p1 = trim_chars(parts[1].as_slice());
    let p2 = trim_chars(parts[2].as_slice());
    assert(parts@.map_values(|p: Vec<char>| p@)[0] == parts@[0]@);
    assert(parts@.map_values(|p: Vec<char>| p@)[1] == parts@[1]@);
    assert(parts@.map_values(|p: Vec<char>| p@)[2] == parts@[2]@);
    match (rgb_channel_of(p0.as_slice()), rgb_channel_of(p1.as_slice()), rgb_channel_of(p2.as_slice())) {
        (Some(r), Some(g), Some(b)) => Some(Color { r, g, b }),
        _ => None,
    }
}

/// The colour that a declaration value names.
pub fn parse_color(value: &str) -> (r: Option<Color>)
    requires
        color_slices_on_boundaries(value@),
    ensures
        r == color_value(value@),
{
    let cs = chars_of(value);
    let v = trim_chars(cs.as_slice());
    if v.len() > 0 && v[0] == '#' {
        let mut rest: Vec<char> = Vec::new();
        let mut i: usize = 1;
        while i < v.len()
            invariant
                1 <= i <= v@.len(),
                rest@ == v@.subrange(1, i as int),
            decreases v@.len() - i,
        {
            rest.push(v[i]);
            i += 1;
            assert(rest@ =~= v@.subrange(1, i as int));
        }
        assert(rest@ =~= v@.drop_first());
        let h = trim_chars(rest.as_slice());
        return hex_color_of(h.as_slice());
    }
    match rgb_function_color_of(v.as_slice()) {
        Some(c) => Some(c),
        None => named_color_of(v.as_slice()),
    }
}

/// The first family of a `font-family` list, without white space or
/// quotation marks around it; an empty value names none.
pub open spec fn font_family_value(value: Seq<char>) -> Option<Seq<char>> {
    let v = trim(value);
    if v.len() == 0 {
        None
    } else {
        Some(trim_quotes(trim(split_at_char(v, ',')[0])))
    }
}

/// Reads the first family of a `font-family` value.
pub fn parse_font_family(value: &str) -> (r: Option<String>)
    ensures
        opt_string_view(r) == font_family_value(value@),
{
    let cs = chars_of(value);
    let v = trim_chars(cs.as_slice());
    if v.len() == 0 {
        return None;
    }
    let parts = split_chars_at(v.as_slice(), ',');
    assert(parts@.map_values(|p: Vec<char>| p@)[0] == parts@[0]@);
    let first = trim_chars(parts[0].as_slice());
    let unquoted = strip_chars(first.as_slice(), true);
    Some(string_from_chars(unquoted.as_slice()))
}

/// Whether `t` ends with `!important`, in any ASCII case.
pub open spec fn ends_important(t: Seq<char>) -> bool {
    t.len() >= 10 && eq_ignore_ascii_case(t.skip(t.len() - 10), "!important"@)
}

/// A declaration value without the `!important` flag, and whether the flag
/// was there: the value is trimmed, and where it ends with `!important`
/// that suffix and the white space before it are removed.
pub open spec fn strip_important_value(value: Seq<char>) -> (Seq<char>, bool) {
    let t = trim(value);
    if ends_important(t) {
        (trim_end(t.take(t.len() - 10)), true)
    } else {
        (t, false)
    }
}

/// The inputs on which the suffix test does not slice a string inside a
/// character: ten bytes before the end of the trimmed value is a character
/// boundary.
pub open spec fn important_slice_on_boundary(value: Seq<char>) -> bool {
    let b = encode_utf8(trim(value));
    b.len() >= 10 ==> is_char_boundary(b, b.len() - 10)
}

/// Splits the `!important` flag off a declaration value.
pub fn strip_important(value: &str) -> (r: (String, bool))
    requires
        important_slice_on_boundary(value@),
    ensures
        (r.0@, r.1) == strip_important_value(value@),
{
    let cs = chars_of(value);
    let t = trim_chars(cs.as_slice());
    let n = t.len();
    let suffix = chars_of("!important");
    if n >= 10 {
        let mut tail: Vec<char> = Vec::new();
        let mut i: usize = n - 10;
        while i < n
            invariant
                n >= 10,
                n - 10 <= i <= n,
                n == t@.len(),
                tail@ == t@.subrange(n - 10, i as int),
            decreases n - i,
        {
            tail.push(t[i]);
            i += 1;
            assert(tail@ =~= t@.subrange(n - 10, i as int));
        }
        assert(tail@ =~= t@.skip(n - 10));
        if chars_eq_ignore_ascii_case(tail.as_slice(), suffix.as_slice()) {
            let mut head: Vec<char> = Vec::new();
            let mut j: usize = 0;
            while j < n - 10
                invariant
                    n >= 10,
                    j <= n - 10,
                    n == t@.len(),
                    head@ == t@.take(j as int),
                decreases n - 10 - j,
            {
                head.push(t[j]);
                j += 1;
                assert(head@ =~= t@.take(j as int));
            }
            let kept = trim_end_chars(head.as_slice());
            return (string_from_chars(kept.as_slice()), true);
        }
    }
    (string_from_chars(t.as_slice()), false)
}

/// A top-level token of a declaration list, told apart as far as splitting
/// the list into declarations needs: identifiers keep their name.
#[derive(Debug, Clone, PartialEq, Eq)]
pub enum DeclToken {
    Ident(String),
    Colon,
    Semicolon,
    Other,
}

/// The top-level tokens of `input` as cssparser's tokenizer reads them, in
/// order, each with the byte offsets where it starts and ends.
pub uninterp spec fn cssparser_declaration_tokens(input: Seq<char>) -> Seq<(DeclToken, usize, usize)>;

/// The span of a token lies in `bytes` and starts and ends on character
/// boundaries.
pub open spec fn token_span_ok(bytes: Seq<u8>, t: (DeclToken, usize, usize)) -> bool {
    &&& t.1 <= t.2 <= bytes.len()
    &&& is_char_boundary(bytes, t.1 as int)
    &&& is_char_boundary(bytes, t.2 as int)
}

/// Token spans of `input`: each within its bytes on character boundaries,
/// and each token starting where or after the one before it ends.
pub open spec fn tokens_well_formed(input: Seq<char>, tokens: Seq<(DeclToken, usize, usize)>) -> bool {
    &&& forall|k: int| 0 <= k < tokens.len() ==> token_span_ok(encode_utf8(input), #[trigger] tokens[k])
    &&& forall|j: int, k: int| #![trigger tokens[j], tokens[k]] 0 <= j < k < tokens.len() ==> tokens[j].2 <= tokens[k].1
}

/// Tokenizes `input` with cssparser's `Parser`: before each token it skips
/// white space, comments and the contents of a block or function opened by
/// the token before, and notes the byte position; it then takes the token
/// with `next` and notes the position after it, until the input ends.
/// Identifiers keep their name, colons and semicolons are told apart and
/// every other token is `Other`. Claimed: the result is a function of
/// `input`, named `cssparser_declaration_tokens`, and its spans are
/// ascending character boundaries of `input` (the tokenizer's positions
/// are character boundaries and only move forward). What the tokens are on
/// given text is left unsaid.
#[verifier::external_body]
pub fn declaration_tokens(input: &str) -> (t: Vec<(DeclToken, usize, usize)>)
    ensures
        t@ == cssparser_declaration_tokens(input@),
        tokens_well_formed(input@, t@),
{
    let mut parser = Parser::new(input);
    let mut tokens = Vec::new();
    loop {
        parser.skip_whitespace();
        let start = parser.position().byte_index();
        let kind = match parser.next() {
            Ok(Token::Ident(name)) => DeclToken::Ident(name.as_ref().to_owned()),
            Ok(Token::Colon) => DeclToken::Colon,
            Ok(Token::Semicolon) => DeclToken::Semicolon,
            Ok(_) => DeclToken::Other,
            Err(_) => return tokens,
        };
        tokens.push((kind, start, parser.position().byte_index()));
    }
}

/// A declaration of a known property, with its value text (without the
/// `!important` flag) and whether the flag was there.
#[derive(Debug, Clone, PartialEq)]
pub struct RawDeclaration {
    pub property: Property,
    pub value: String,
    pub important: bool,
}

impl View for RawDeclaration {
    type V = (Property, Seq<char>, bool);

    open spec fn view(&self) -> (Property, Seq<char>, bool) {
        (self.property, self.value@, self.important)
    }
}

/// The views of a list of declarations.
pub open spec fn raw_declarations_view(v: Seq<RawDeclaration>) -> Seq<(Property, Seq<char>, bool)> {
    v.map_values(|d: RawDeclaration| d@)
}

/// The view of a list of declarations that may be missing.
pub open spec fn opt_declarations_view(o: Option<Vec<RawDeclaration>>) -> Option<Seq<(Property, Seq<char>, bool)>> {
    match o {
        Some(v) => Some(raw_declarations_view(v@)),
        None => None,
    }
}

/// Where a declaration list is read up to: at the start of a declaration,
/// after its name (the name token's index), skipping to the next semicolon,
/// or in a value (indices of the name, of the colon, and of the value's
/// last token so far).
#[derive(Debug, Clone, Copy, PartialEq, Eq, Structural)]
pub enum DeclState {
    Start,
    Named(usize),
    Skip,
    Value(usize, usize, usize),
}

/// `s` without the semicolons at its end.
pub open spec fn trim_end_semicolons(s: Seq<char>) -> Seq<char>
    decreases s.len(),
{
    if s.len() > 0 && s.last() == ';' {
        trim_end_semicolons(s.drop_last())
    } else {
        s
    }
}

/// The value text of a declaration whose colon is token `c` and whose
/// value ends with token `last`: the input from the end of the colon to
/// the end of `last`, trimmed; where `last` is the closing semicolon, the
/// semicolons at its end are dropped and the rest trimmed again.
pub open spec fn value_text(input: Seq<char>, tokens: Seq<(DeclToken, usize, usize)>, c: int, last: int, saw_semicolon: bool) -> Seq<char> {
    let bytes = encode_utf8(input);
    let t = trim(decode_utf8(bytes.subrange(tokens[c].2 as int, tokens[last].2 as int)));
    if saw_semicolon {
        trim(trim_end_semicolons(t))
    } else {
        t
    }
}

/// The declaration named by token `n` with the value described in
/// `value_text`: `None` where splitting off `!important` would cut a
/// character (the value cannot be read), else the declaration, or no
/// declaration where the name is not an identifier of a known property.
pub open spec fn declaration_at(input: Seq<char>, tokens: Seq<(DeclToken, usize, usize)>, n: int, c: int, last: int, saw_semicolon: bool) -> Option<Option<(Property, Seq<char>, bool)>> {
    let raw = value_text(input, tokens, c, last, saw_semicolon);
    if !important_slice_on_boundary(raw) {
        None
    } else {
        let (value, important) = strip_important_value(raw);
        match tokens[n].0 {
            DeclToken::Ident(name) => match property_named(name@) {
                Some(p) => Some(Some((p, value, important))),
                None => Some(None),
            },
            _ => Some(None),
        }
    }
}

/// A declaration is of the property that its name token names, and its
/// value and flag are those of the `!important` split of its value text.
pub proof fn law_declaration_is_of_its_named_property(input: Seq<char>, tokens: Seq<(DeclToken, usize, usize)>, n: int, c: int, last: int, saw_semicolon: bool, p: Property, v: Seq<char>, imp: bool)
    requires
        declaration_at(input, tokens, n, c, last, saw_semicolon) == Some(Some((p, v, imp))),
    ensures
        tokens[n].0 matches DeclToken::Ident(name) && property_named(name@) == Some(p),
        (v, imp) == strip_important_value(value_text(input, tokens, c, last, saw_semicolon)),
{
}

/// `ds` with the declaration `d` added where there is one.
pub open spec fn push_declaration(ds: Seq<(Property, Seq<char>, bool)>, d: Option<(Property, Seq<char>, bool)>) -> Seq<(Property, Seq<char>, bool)> {
    match d {
        Some(x) => ds.push(x),
        None => ds,
    }
}

/// One step of reading a declaration list, on token `k`: a declaration
/// starts at an identifier, and anything else there is skipped up to and
/// with the next semicolon; a name must be followed by a colon, else the
/// reader skips from that token on; a value runs up to and with the next
/// semicolon, which ends the declaration.
pub open spec fn declaration_step(input: Seq<char>, tokens: Seq<(DeclToken, usize, usize)>, ds: Seq<(Property, Seq<char>, bool)>, st: DeclState, k: int) -> Option<(Seq<(Property, Seq<char>, bool)>, DeclState)> {
    let tok = tokens[k].0;
    match st {
        DeclState::Start => if tok is Ident {
            Some((ds, DeclState::Named(k as usize)))
        } else {
            Some((ds, DeclState::Skip))
        },
        DeclState::Named(n) => if tok is Colon {
            Some((ds, DeclState::Value(n, k as usize, k as usize)))
        } else if tok is Semicolon {
            Some((ds, DeclState::Start))
        } else {
            Some((ds, DeclState::Skip))
        },
        DeclState::Skip => if tok is Semicolon {
            Some((ds, DeclState::Start))
        } else {
            Some((ds, DeclState::Skip))
        },
        DeclState::Value(n, c, _) => if tok is Semicolon {
            match declaration_at(input, tokens, n as int, c as int, k, true) {
                Some(d) => Some((push_declaration(ds, d), DeclState::Start)),
                None => None,
            }
        } else {
            Some((ds, DeclState::Value(n, c, k as usize)))
        },
    }
}

/// A semicolon ends what is being read: after a name, a value or a skipped
/// stretch, reading is back at the start of a declaration (unless the value
/// it closes cannot be read); where a declaration should start, the
/// semicolon is skipped over up to the next one.
pub proof fn law_semicolon_ends_declaration(input: Seq<char>, tokens: Seq<(DeclToken, usize, usize)>, ds: Seq<(Property, Seq<char>, bool)>, st: DeclState, k: int)
    requires
        0 <= k < tokens.len(),
        tokens[k].0 is Semicolon,
    ensures
        st != DeclState::Start ==> (declaration_step(input, tokens, ds, st, k) matches Some(r) ==> r.1 == DeclState::Start),
        !(st is Value) ==> declaration_step(input, tokens, ds, st, k) is Some,
        st == DeclState::Start ==> declaration_step(input, tokens, ds, st, k) == Some((ds, DeclState::Skip)),
{
}

/// Reading a token adds a declaration only where a semicolon closes a
/// value, and then exactly one, after those read before; every other token
/// keeps the declarations read so far.
pub proof fn law_declarations_added_only_at_value_end(input: Seq<char>, tokens: Seq<(DeclToken, usize, usize)>, ds: Seq<(Property, Seq<char>, bool)>, st: DeclState, k: int)
    requires
        0 <= k < tokens.len(),
    ensures
        declaration_step(input, tokens, ds, st, k) matches Some(r) ==> (r.0 == ds || (st is Value
            && tokens[k].0 is Semicolon && r.0.len() == ds.len() + 1 && r.0.take(ds.len() as int) == ds)),
{
    if let Some(r) = declaration_step(input, tokens, ds, st, k) {
        if r.0 != ds {
            assert(r.0.take(ds.len() as int) =~= ds);
        }
    }
}

/// The declarations read from the first `upto` tokens and the state after
/// them; `None` where a value on the way cannot be read.
pub open spec fn declaration_run(input: Seq<char>, tokens: Seq<(DeclToken, usize, usize)>, upto: int) -> Option<(Seq<(Property, Seq<char>, bool)>, DeclState)>
    decreases upto,
{
    if upto <= 0 {
        Some((Seq::empty(), DeclState::Start))
    } else {
        match declaration_run(input, tokens, upto - 1) {
            Some((ds, st)) => declaration_step(input, tokens, ds, st, upto - 1),
            None => None,
        }
    }
}

/// The declarations of a declaration list: those read from all its tokens,
/// and the one whose value the end of the input closes; `None` where a
/// value cannot be read.
pub open spec fn declarations_of(input: Seq<char>, tokens: Seq<(DeclToken, usize, usize)>) -> Option<Seq<(Property, Seq<char>, bool)>> {
    match declaration_run(input, tokens, tokens.len() as int) {
        Some((ds, DeclState::Value(n, c, last))) => match declaration_at(input, tokens, n as int, c as int, last as int, false) {
            Some(d) => Some(push_declaration(ds, d)),
            None => None,
        },
        Some((ds, _)) => Some(ds),
        None => None,
    }
}

/// The token indices a reading state holds come before token `k`, the
/// name before the colon and the colon no later than the value's end.
pub open spec fn state_fits(st: DeclState, k: int) -> bool {
    match st {
        DeclState::Named(n) => n < k,
        DeclState::Value(n, c, last) => n < c <= last < k,
        _ => true,
    }
}

proof fn lemma_run_stays_unreadable(input: Seq<char>, tokens: Seq<(DeclToken, usize, usize)>, k: int, m: int)
    requires
        0 <= k <= m,
        declaration_run(input, tokens, k) is None,
    ensures
        declaration_run(input, tokens, m) is None,
    decreases m - k,
{
    if k < m {
        lemma_run_stays_unreadable(input, tokens, k, m - 1);
    }
}

/// The characters of `s` without the semicolons at its end.
fn trim_end_semicolon_chars(s: &[char]) -> (r: Vec<char>)
    ensures
        r@ == trim_end_semicolons(s@),
{
    let n = s.len();
    let mut b: usize = n;
    assert(s@.take(n as int) =~= s@);
    while b > 0 && s[b - 1] == ';'
        invariant
            n == s@.len(),
            b <= n,
            trim_end_semicolons(s@.take(b as int)) == trim_end_semicolons(s@),
        decreases b,
    {
        assert(s@.take(b as int).drop_last() =~= s@.take(b - 1));
        b -= 1;
    }
    if b > 0 {
        assert(s@.take(b as int).last() == s@[b - 1]);
    }
    let mut r: Vec<char> = Vec::new();
    let mut i: usize = 0;
    while i < b
        invariant
            i <= b <= n,
            n == s@.len(),
            r@ == s@.take(i as int),
        decreases b - i,
    {
        r.push(s[i]);
        i += 1;
        assert(r@ =~= s@.take(i as int));
    }
    r
}

/// Whether `strip_important` can read `value`.
fn important_on_boundary(value: &str) -> (r: bool)
    ensures
        r == important_slice_on_boundary(value@),
{
    let cs = chars_of(value);
    let t = trim_chars(cs.as_slice());
    let s = string_from_chars(t.as_slice());
    let st = s.as_str();
    let n = st.as_bytes().len();
    if n >= 10 {
        st.is_char_boundary(n - 10)
    } else {
        true
    }
}

/// The value text described in `value_text`.
fn declaration_value_text(input: &str, tokens: &Vec<(DeclToken, usize, usize)>, c: usize, last: usize, saw_semicolon: bool) -> (r: String)
    requires
        tokens_well_formed(input@, tokens@),
        c <= last < tokens@.len(),
    ensures
        r@ == value_text(input@, tokens@, c as int, last as int, saw_semicolon),
{
    let start = tokens[c].2;
    let end = tokens[last].2;
    proof {
        assert(token_span_ok(encode_utf8(input@), tokens@[c as int]));
        assert(token_span_ok(encode_utf8(input@), tokens@[last as int]));
        if c < last {
            assert(tokens@[c as int].2 <= tokens@[last as int].1);
        }
    }
    let piece = slice_text(input, start, end);
    let cs = chars_of(piece);
    let t = trim_chars(cs.as_slice());
    if saw_semicolon {
        let u = trim_end_semicolon_chars(t.as_slice());
        let w = trim_chars(u.as_slice());
        string_from_chars(w.as_slice())
    } else {
        string_from_chars(t.as_slice())
    }
}

/// The declaration described in `declaration_at`.
fn declaration_from(input: &str, tokens: &Vec<(DeclToken, usize, usize)>, n: usize, c: usize, last: usize, saw_semicolon: bool) -> (r: Option<Option<RawDeclaration>>)
    requires
        tokens_well_formed(input@, tokens@),
        n < tokens@.len(),
        c <= last < tokens@.len(),
    ensures
        r == None::<Option<RawDeclaration>> <==> declaration_at(input@, tokens@, n as int, c as int, last as int, saw_semicolon) is None,
        r matches Some(d) ==> declaration_at(input@, tokens@, n as int, c as int, last as int, saw_semicolon) == Some(
            match d {
                Some(x) => Some(x@),
                None => None::<(Property, Seq<char>, bool)>,
            },
        ),
{
    let raw = declaration_value_text(input, tokens, c, last, saw_semicolon);
    if !important_on_boundary(raw.as_str()) {
        return None;
    }
    let (value, important) = strip_important(raw.as_str());
    match &tokens[n].0 {
        DeclToken::Ident(name) => match property_from_name(name.as_str()) {
            Some(property) => Some(Some(RawDeclaration { property, value, important })),
            None => Some(None),
        },
        _ => Some(None),
    }
}

/// Splits a declaration list, given as its text and its tokens, into the
/// declarations of known properties, in order. Reading recovers at the
/// next semicolon from a declaration that does not start with an
/// identifier or whose name is not followed by a colon; declarations of
/// unknown properties are dropped. `None` where a value's `!important`
/// suffix test would cut a character.
pub fn split_declarations(input: &str, tokens: &Vec<(DeclToken, usize, usize)>) -> (r: Option<Vec<RawDeclaration>>)
    requires
        tokens_well_formed(input@, tokens@),
    ensures
        opt_declarations_view(r) == declarations_of(input@, tokens@),
{
    let mut out: Vec<RawDeclaration> = Vec::new();
    let mut state = DeclState::Start;
    let mut k: usize = 0;
    while k < tokens.len()
        invariant
            k <= tokens@.len(),
            tokens_well_formed(input@, tokens@),
            state_fits(state, k as int),
            declaration_run(input@, tokens@, k as int) == Some((raw_declarations_view(out@), state)),
        decreases tokens@.len() - k,
    {
        let ghost old_out = out@;
        let tok = &tokens[k].0;
        match state {
            DeclState::Start => {
                state = match tok {
                    DeclToken::Ident(_) => DeclState::Named(k),
                    _ => DeclState::Skip,
                };
            },
            DeclState::Named(n) => {
                state = match tok {
                    DeclToken::Colon => DeclState::Value(n, k, k),
                    DeclToken::Semicolon => DeclState::Start,
                    _ => DeclState::Skip,
                };
            },
            DeclState::Skip => {
                state = match tok {
                    DeclToken::Semicolon => DeclState::Start,
                    _ => DeclState::Skip,
                };
            },
            DeclState::Value(n, c, _) => {
                match tok {
                    DeclToken::Semicolon => {
                        match declaration_from(input, tokens, n, c, k, true) {
                            None => {
                                proof {
                                    assert(declaration_run(input@, tokens@, k + 1) is None);
                                    lemma_run_stays_unreadable(input@, tokens@, k + 1, tokens@.len() as int);
                                }
                                return None;
                            },
                            Some(d) => {
                                if let Some(d) = d {
                                    out.push(d);
                                    assert(raw_declarations_view(out@) =~= raw_declarations_view(old_out).push(d@));
                                }
                                state = DeclState::Start;
                            },
                        }
                    },
                    _ => {
                        state = DeclState::Value(n, c, k);
                    },
                }
            },
        }
        k += 1;
    }
    match state {
        DeclState::Value(n, c, last) => match declaration_from(input, tokens, n, c, last, false) {
            None => None,
            Some(d) => {
                let ghost old_out = out@;
                if let Some(d) = d {
                    out.push(d);
                    assert(raw_declarations_view(out@) =~= raw_declarations_view(old_out).push(d@));
                }
                Some(out)
            },
        },
        _ => Some(out),
    }
}

/// Reads an inline `style` declaration list: cssparser's tokens of
/// `input`, split into the declarations of known properties as
/// `split_declarations` does.
pub fn parse_declaration_list(input: &str) -> (r: Option<Vec<RawDeclaration>>)
    ensures
        opt_declarations_view(r) == declarations_of(input@, cssparser_declaration_tokens(input@)),
{
    let tokens = declaration_tokens(input);
    split_declarations(input, &tokens)
}

/// The keyword that writes each property.
pub open spec fn property_keyword(v: Property) -> Seq<char> {
    match v {
        Property::Display => "display"@,
        Property::Direction => "direction"@,
        Property::FontFamily => "font-family"@,
        Property::FontSize => "font-size"@,
        Property::FontWeight => "font-weight"@,
        Property::LineHeight => "line-height"@,
        Property::TextAlign => "text-align"@,
        Property::Color => "color"@,
        Property::BackgroundColor => "background-color"@,
        Property::Margin => "margin"@,
        Property::Padding => "padding"@,
        Property::Border => "border"@,
        Property::Width => "width"@,
        Property::JustifyContent => "justify-content"@,
    }
}

/// The property that a name gives is the one whose keyword (or one of its aliases: `background`) the name
/// is, lowered to ASCII lower case.
pub proof fn law_property_named_by_its_keyword(name: Seq<char>, v: Property)
    requires
        property_named(name) == Some(v),
    ensures
        lower_ascii(name) == property_keyword(v) || (v == Property::BackgroundColor && lower_ascii(name) == "background"@),
{
    if eq_ignore_ascii_case(name, "display"@) {
        reveal_strlit("display");
        lemma_lower_ascii_of_match(name, "display"@);
    } else if eq_ignore_ascii_case(name, "direction"@) {
        reveal_strlit("direction");
        lemma_lower_ascii_of_match(name, "direction"@);
    } else if eq_ignore_ascii_case(name, "font-family"@) {
        reveal_strlit("font-family");
        lemma_lower_ascii_of_match(name, "font-family"@);
    } else if eq_ignore_ascii_case(name, "font-size"@) {
        reveal_strlit("font-size");
        lemma_lower_ascii_of_match(name, "font-size"@);
    } else if eq_ignore_ascii_case(name, "font-weight"@) {
        reveal_strlit("font-weight");
        lemma_lower_ascii_of_match(name, "font-weight"@);
    } else if eq_ignore_ascii_case(name, "line-height"@) {
        reveal_strlit("line-height");
        lemma_lower_ascii_of_match(name, "line-height"@);
    } else if eq_ignore_ascii_case(name, "text-align"@) {
        reveal_strlit("text-align");
        lemma_lower_ascii_of_match(name, "text-align"@);
    } else if eq_ignore_ascii_case(name, "color"@) {
        reveal_strlit("color");
        lemma_lower_ascii_of_match(name, "color"@);
    } else if eq_ignore_ascii_case(name, "background"@) {
        reveal_strlit("background");
        lemma_lower_ascii_of_match(name, "background"@);
    } else if eq_ignore_ascii_case(name, "background-color"@) {
        reveal_strlit("background-color");
        lemma_lower_ascii_of_match(name, "background-color"@);
    } else if eq_ignore_ascii_case(name, "margin"@) {
        reveal_strlit("margin");
        lemma_lower_ascii_of_match(name, "margin"@);
    } else if eq_ignore_ascii_case(name, "padding"@) {
        reveal_strlit("padding");
        lemma_lower_ascii_of_match(name, "padding"@);
    } else if eq_ignore_ascii_case(name, "border"@) {
        reveal_strlit("border");
        lemma_lower_ascii_of_match(name, "border"@);
    } else if eq_ignore_ascii_case(name, "width"@) {
        reveal_strlit("width");
        lemma_lower_ascii_of_match(name, "width"@);
    } else if eq_ignore_ascii_case(name, "justify-content"@) {
        reveal_strlit("justify-content");
        lemma_lower_ascii_of_match(name, "justify-content"@);
    }
}

/// Every supported property is given for its keyword, written in any ASCII case.
pub proof fn law_property_keyword_gives_it(name: Seq<char>, v: Property)
    requires
        eq_ignore_ascii_case(name, property_keyword(v)),
    ensures
        property_named(name) == Some(v),
{
    reveal_strlit("background");
    reveal_strlit("background-color");
    reveal_strlit("border");
    reveal_strlit("color");
    reveal_strlit("direction");
    reveal_strlit("display");
    reveal_strlit("font-family");
    reveal_strlit("font-size");
    reveal_strlit("font-weight");
    reveal_strlit("justify-content");
    reveal_strlit("line-height");
    reveal_strlit("margin");
    reveal_strlit("padding");
    reveal_strlit("text-align");
    reveal_strlit("width");
    match v {
        Property::Display => {},
        Property::Direction => {},
        Property::FontFamily => {},
        Property::FontSize => {
            assert(ascii_lower(name[0]) == ascii_lower("font-size"@[0]));
        },
        Property::FontWeight => {
            assert(ascii_lower(name[5]) == ascii_lower("font-weight"@[5]));
        },
        Property::LineHeight => {
            assert(ascii_lower(name[0]) == ascii_lower("line-height"@[0]));
            assert(ascii_lower(name[0]) == ascii_lower("line-height"@[0]));
        },
        Property::TextAlign => {},
        Property::Color => {},
        Property::BackgroundColor => {},
        Property::Margin => {},
        Property::Padding => {
            assert(ascii_lower(name[0]) == ascii_lower("padding"@[0]));
        },
        Property::Border => {
            assert(ascii_lower(name[0]) == ascii_lower("border"@[0]));
        },
        Property::Width => {
            assert(ascii_lower(name[0]) == ascii_lower("width"@[0]));
        },
        Property::JustifyContent => {},
    }
}

/// The keyword that writes each `display` value.
pub open spec fn display_keyword_name(v: Display) -> Seq<char> {
    match v {
        Display::Block => "block"@,
        Display::Inline => "inline"@,
        Display::InlineBlock => "inline-block"@,
        Display::Flex => "flex"@,
        Display::Table => "table"@,
        Display::TableRow => "table-row"@,
        Display::TableCell => "table-cell"@,
        Display::ListItem => "list-item"@,
        Display::NoDisplay => "none"@,
    }
}

/// The `display` value that a name gives is the one whose keyword the name
/// is, lowered to ASCII lower case; only supported ones are given.
pub proof fn law_display_named_by_its_keyword(name: Seq<char>, v: Display)
    requires
        display_keyword(name) == Some(v),
    ensures
        lower_ascii(name) == display_keyword_name(v),
        v == Display::Block || v == Display::Inline || v == Display::NoDisplay || v == Display::Flex,
{
    if eq_ignore_ascii_case(name, "block"@) {
        reveal_strlit("block");
        lemma_lower_ascii_of_match(name, "block"@);
    } else if eq_ignore_ascii_case(name, "inline"@) {
        reveal_strlit("inline");
        lemma_lower_ascii_of_match(name, "inline"@);
    } else if eq_ignore_ascii_case(name, "none"@) {
        reveal_strlit("none");
        lemma_lower_ascii_of_match(name, "none"@);
    } else if eq_ignore_ascii_case(name, "flex"@) {
        reveal_strlit("flex");
        lemma_lower_ascii_of_match(name, "flex"@);
    }
}

/// Every supported `display` value is given for its keyword, written in any ASCII case.
pub proof fn law_display_keyword_gives_it(name: Seq<char>, v: Display)
    requires
        eq_ignore_ascii_case(name, display_keyword_name(v)),
        v == Display::Block || v == Display::Inline || v == Display::NoDisplay || v == Display::Flex,
    ensures
        display_keyword(name) == Some(v),
{
    reveal_strlit("block");
    reveal_strlit("flex");
    reveal_strlit("inline");
    reveal_strlit("none");
    match v {
        Display::Block => {},
        Display::Inline => {},
        Display::Flex => {
            assert(ascii_lower(name[0]) == ascii_lower("flex"@[0]));
        },
        Display::NoDisplay => {},
        _ => {},
    }
}

/// The keyword that writes each `direction` value.
pub open spec fn direction_keyword_name(v: Direction) -> Seq<char> {
    match v {
        Direction::RTL => "rtl"@,
        Direction::LTR => "ltr"@,
    }
}

/// The `direction` value that a name gives is the one whose keyword the name
/// is, lowered to ASCII lower case.
pub proof fn law_direction_named_by_its_keyword(name: Seq<char>, v: Direction)
    requires
        direction_keyword(name) == Some(v),
    ensures
        lower_ascii(name) == direction_keyword_name(v),
{
    if eq_ignore_ascii_case(name, "rtl"@) {
        reveal_strlit("rtl");
        lemma_lower_ascii_of_match(name, "rtl"@);
    } else if eq_ignore_ascii_case(name, "ltr"@) {
        reveal_strlit("ltr");
        lemma_lower_ascii_of_match(name, "ltr"@);
    }
}

/// Every supported `direction` value is given for its keyword, written in any ASCII case.
pub proof fn law_direction_keyword_gives_it(name: Seq<char>, v: Direction)
    requires
        eq_ignore_ascii_case(name, direction_keyword_name(v)),
    ensures
        direction_keyword(name) == Some(v),
{
    reveal_strlit("ltr");
    reveal_strlit("rtl");
    match v {
        Direction::RTL => {},
        Direction::LTR => {
            assert(ascii_lower(name[0]) == ascii_lower("ltr"@[0]));
        },
    }
}

/// The keyword that writes each `text-align` value.
pub open spec fn text_align_keyword_name(v: TextAlign) -> Seq<char> {
    match v {
        TextAlign::Start => "start"@,
        TextAlign::Left => "left"@,
        TextAlign::Right => "right"@,
        TextAlign::Center => "center"@,
        TextAlign::Justify => "justify"@,
    }
}

/// The `text-align` value that a name gives is the one whose keyword the name
/// is, lowered to ASCII lower case; only supported ones are given.
pub proof fn law_text_align_named_by_its_keyword(name: Seq<char>, v: TextAlign)
    requires
        text_align_keyword(name) == Some(v),
    ensures
        lower_ascii(name) == text_align_keyword_name(v),
        v == TextAlign::Start || v == TextAlign::Left || v == TextAlign::Right || v == TextAlign::Center,
{
    if eq_ignore_ascii_case(name, "start"@) {
        reveal_strlit("start");
        lemma_lower_ascii_of_match(name, "start"@);
    } else if eq_ignore_ascii_case(name, "left"@) {
        reveal_strlit("left");
        lemma_lower_ascii_of_match(name, "left"@);
    } else if eq_ignore_ascii_case(name, "right"@) {
        reveal_strlit("right");
        lemma_lower_ascii_of_match(name, "right"@);
    } else if eq_ignore_ascii_case(name, "center"@) {
        reveal_strlit("center");
        lemma_lower_ascii_of_match(name, "center"@);
    }
}

/// Every supported `text-align` value is given for its keyword, written in any ASCII case.
pub proof fn law_text_align_keyword_gives_it(name: Seq<char>, v: TextAlign)
    requires
        eq_ignore_ascii_case(name, text_align_keyword_name(v)),
        v == TextAlign::Start || v == TextAlign::Left || v == TextAlign::Right || v == TextAlign::Center,
    ensures
        text_align_keyword(name) == Some(v),
{
    reveal_strlit("center");
    reveal_strlit("left");
    reveal_strlit("right");
    reveal_strlit("start");
    match v {
        TextAlign::Start => {},
        TextAlign::Left => {},
        TextAlign::Right => {
            assert(ascii_lower(name[0]) == ascii_lower("right"@[0]));
        },
        TextAlign::Center => {},
        _ => {},
    }
}

/// The keyword that writes each `font-weight` keyword.
pub open spec fn font_weight_keyword_name(v: FontWeight) -> Seq<char> {
    match v {
        FontWeight::Normal => "normal"@,
        FontWeight::Bold => "bold"@,
    }
}

/// The `font-weight` keyword that a name gives is the one whose keyword the name
/// is, lowered to ASCII lower case.
pub proof fn law_font_weight_named_by_its_keyword(name: Seq<char>, v: FontWeight)
    requires
        font_weight_keyword(name) == Some(v),
    ensures
        lower_ascii(name) == font_weight_keyword_name(v),
{
    if eq_ignore_ascii_case(name, "normal"@) {
        reveal_strlit("normal");
        lemma_lower_ascii_of_match(name, "normal"@);
    } else if eq_ignore_ascii_case(name, "bold"@) {
        reveal_strlit("bold");
        lemma_lower_ascii_of_match(name, "bold"@);
    }
}

/// Every supported `font-weight` keyword is given for its keyword, written in any ASCII case.
pub proof fn law_font_weight_keyword_gives_it(name: Seq<char>, v: FontWeight)
    requires
        eq_ignore_ascii_case(name, font_weight_keyword_name(v)),
    ensures
        font_weight_keyword(name) == Some(v),
{
    reveal_strlit("bold");
    reveal_strlit("normal");
    match v {
        FontWeight::Normal => {},
        FontWeight::Bold => {},
    }
}

/// The keyword that writes each `justify-content` value.
pub open spec fn justify_content_keyword_name(v: JustifyContent) -> Seq<char> {
    match v {
        JustifyContent::FlexStart => "flex-start"@,
        JustifyContent::FlexEnd => "flex-end"@,
        JustifyContent::Center => "center"@,
        JustifyContent::SpaceBetween => "space-between"@,
        JustifyContent::SpaceAround => "space-around"@,
        JustifyContent::SpaceEvenly => "space-evenly"@,
    }
}

/// The `justify-content` value that a name gives is the one whose keyword the name
/// is, lowered to ASCII lower case.
pub proof fn law_justify_content_named_by_its_keyword(name: Seq<char>, v: JustifyContent)
    requires
        justify_content_keyword(name) == Some(v),
    ensures
        lower_ascii(name) == justify_content_keyword_name(v),
{
    if eq_ignore_ascii_case(name, "flex-start"@) {
        reveal_strlit("flex-start");
        lemma_lower_ascii_of_match(name, "flex-start"@);
    } else if eq_ignore_ascii_case(name, "flex-end"@) {
        reveal_strlit("flex-end");
        lemma_lower_ascii_of_match(name, "flex-end"@);
    } else if eq_ignore_ascii_case(name, "center"@) {
        reveal_strlit("center");
        lemma_lower_ascii_of_match(name, "center"@);
    } else if eq_ignore_ascii_case(name, "space-between"@) {
        reveal_strlit("space-between");
        lemma_lower_ascii_of_match(name, "space-between"@);
    } else if eq_ignore_ascii_case(name, "space-around"@) {
        reveal_strlit("space-around");
        lemma_lower_ascii_of_match(name, "space-around"@);
    } else if eq_ignore_ascii_case(name, "space-evenly"@) {
        reveal_strlit("space-evenly");
        lemma_lower_ascii_of_match(name, "space-evenly"@);
    }
}

/// Every supported `justify-content` value is given for its keyword, written in any ASCII case.
pub proof fn law_justify_content_keyword_gives_it(name: Seq<char>, v: JustifyContent)
    requires
        eq_ignore_ascii_case(name, justify_content_keyword_name(v)),
    ensures
        justify_content_keyword(name) == Some(v),
{
    reveal_strlit("center");
    reveal_strlit("flex-end");
    reveal_strlit("flex-start");
    reveal_strlit("space-around");
    reveal_strlit("space-between");
    reveal_strlit("space-evenly");
    match v {
        JustifyContent::FlexStart => {},
        JustifyContent::FlexEnd => {},
        JustifyContent::Center => {},
        JustifyContent::SpaceBetween => {},
        JustifyContent::SpaceAround => {},
        JustifyContent::SpaceEvenly => {
            assert(ascii_lower(name[6]) == ascii_lower("space-evenly"@[6]));
        },
    }
}

/// The keyword that writes each length unit.
pub open spec fn length_unit_keyword(v: LengthUnit) -> Seq<char> {
    match v {
        LengthUnit::Pt => "pt"@,
        LengthUnit::Px => "px"@,
        LengthUnit::In => "in"@,
        LengthUnit::Cm => "cm"@,
        LengthUnit::Mm => "mm"@,
        LengthUnit::Pc => "pc"@,
    }
}

/// The length unit that a name gives is the one whose keyword the name
/// is, lowered to ASCII lower case.
pub proof fn law_length_unit_named_by_its_keyword(name: Seq<char>, v: LengthUnit)
    requires
        length_unit_of(name) == Some(v),
    ensures
        lower_ascii(name) == length_unit_keyword(v),
{
    if eq_ignore_ascii_case(name, "pt"@) {
        reveal_strlit("pt");
        lemma_lower_ascii_of_match(name, "pt"@);
    } else if eq_ignore_ascii_case(name, "px"@) {
        reveal_strlit("px");
        lemma_lower_ascii_of_match(name, "px"@);
    } else if eq_ignore_ascii_case(name, "in"@) {
        reveal_strlit("in");
        lemma_lower_ascii_of_match(name, "in"@);
    } else if eq_ignore_ascii_case(name, "cm"@) {
        reveal_strlit("cm");
        lemma_lower_ascii_of_match(name, "cm"@);
    } else if eq_ignore_ascii_case(name, "mm"@) {
        reveal_strlit("mm");
        lemma_lower_ascii_of_match(name, "mm"@);
    } else if eq_ignore_ascii_case(name, "pc"@) {
        reveal_strlit("pc");
        lemma_lower_ascii_of_match(name, "pc"@);
    }
}

/// Every supported length unit is given for its keyword, written in any ASCII case.
pub proof fn law_length_unit_keyword_gives_it(name: Seq<char>, v: LengthUnit)
    requires
        eq_ignore_ascii_case(name, length_unit_keyword(v)),
    ensures
        length_unit_of(name) == Some(v),
{
    reveal_strlit("cm");
    reveal_strlit("in");
    reveal_strlit("mm");
    reveal_strlit("pc");
    reveal_strlit("pt");
    reveal_strlit("px");
    match v {
        LengthUnit::Pt => {},
        LengthUnit::Px => {
            assert(ascii_lower(name[1]) == ascii_lower("px"@[1]));
        },
        LengthUnit::In => {
            assert(ascii_lower(name[0]) == ascii_lower("in"@[0]));
            assert(ascii_lower(name[0]) == ascii_lower("in"@[0]));
        },
        LengthUnit::Cm => {
            assert(ascii_lower(name[0]) == ascii_lower("cm"@[0]));
            assert(ascii_lower(name[0]) == ascii_lower("cm"@[0]));
            assert(ascii_lower(name[0]) == ascii_lower("cm"@[0]));
        },
        LengthUnit::Mm => {
            assert(ascii_lower(name[0]) == ascii_lower("mm"@[0]));
            assert(ascii_lower(name[0]) == ascii_lower("mm"@[0]));
            assert(ascii_lower(name[0]) == ascii_lower("mm"@[0]));
            assert(ascii_lower(name[0]) == ascii_lower("mm"@[0]));
        },
        LengthUnit::Pc => {
            assert(ascii_lower(name[1]) == ascii_lower("pc"@[1]));
            assert(ascii_lower(name[1]) == ascii_lower("pc"@[1]));
            assert(ascii_lower(name[0]) == ascii_lower("pc"@[0]));
            assert(ascii_lower(name[0]) == ascii_lower("pc"@[0]));
            assert(ascii_lower(name[0]) == ascii_lower("pc"@[0]));
        },
    }
}


/// The colour keywords and the colours they name (`transparent` is drawn
/// as white).
pub open spec fn color_keywords() -> Seq<(Seq<char>, Color)> {
    seq![
        ("black"@, Color { r: 0, g: 0, b: 0 }),
        ("white"@, Color { r: 255, g: 255, b: 255 }),
        ("red"@, Color { r: 255, g: 0, b: 0 }),
        ("green"@, Color { r: 0, g: 128, b: 0 }),
        ("blue"@, Color { r: 0, g: 0, b: 255 }),
        ("yellow"@, Color { r: 255, g: 255, b: 0 }),
        ("gray"@, Color { r: 128, g: 128, b: 128 }),
        ("grey"@, Color { r: 128, g: 128, b: 128 }),
        ("transparent"@, Color { r: 255, g: 255, b: 255 })
    ]
}

/// A colour given for a name is the colour of the keyword that the name
/// is, lowered to ASCII lower case.
pub proof fn law_named_color_is_its_keyword(name: Seq<char>, c: Color)
    requires
        named_color(name) == Some(c),
    ensures
        exists|i: int| 0 <= i < color_keywords().len() && lower_ascii(name) == (#[trigger] color_keywords()[i]).0 && c == color_keywords()[i].1,
{
    if eq_ignore_ascii_case(name, "black"@) {
        reveal_strlit("black");
        lemma_lower_ascii_of_match(name, "black"@);
        assert(color_keywords()[0].0 == "black"@);
    } else if eq_ignore_ascii_case(name, "white"@) {
        reveal_strlit("white");
        lemma_lower_ascii_of_match(name, "white"@);
        assert(color_keywords()[1].0 == "white"@);
    } else if eq_ignore_ascii_case(name, "red"@) {
        reveal_strlit("red");
        lemma_lower_ascii_of_match(name, "red"@);
        assert(color_keywords()[2].0 == "red"@);
    } else if eq_ignore_ascii_case(name, "green"@) {
        reveal_strlit("green");
        lemma_lower_ascii_of_match(name, "green"@);
        assert(color_keywords()[3].0 == "green"@);
    } else if eq_ignore_ascii_case(name, "blue"@) {
        reveal_strlit("blue");
        lemma_lower_ascii_of_match(name, "blue"@);
        assert(color_keywords()[4].0 == "blue"@);
    } else if eq_ignore_ascii_case(name, "yellow"@) {
        reveal_strlit("yellow");
        lemma_lower_ascii_of_match(name, "yellow"@);
        assert(color_keywords()[5].0 == "yellow"@);
    } else if eq_ignore_ascii_case(name, "gray"@) {
        reveal_strlit("gray");
        lemma_lower_ascii_of_match(name, "gray"@);
        assert(color_keywords()[6].0 == "gray"@);
    } else if eq_ignore_ascii_case(name, "grey"@) {
        reveal_strlit("grey");
        lemma_lower_ascii_of_match(name, "grey"@);
        assert(color_keywords()[7].0 == "grey"@);
    } else if eq_ignore_ascii_case(name, "transparent"@) {
        reveal_strlit("transparent");
        lemma_lower_ascii_of_match(name, "transparent"@);
        assert(color_keywords()[8].0 == "transparent"@);
    }
}

/// Every colour keyword, written in any ASCII case, names its colour.
pub proof fn law_color_keyword_gives_its_color(name: Seq<char>, i: int)
    requires
        0 <= i < color_keywords().len(),
        eq_ignore_ascii_case(name, color_keywords()[i].0),
    ensures
        named_color(name) == Some(color_keywords()[i].1),
{
    reveal_strlit("black");
    reveal_strlit("white");
    reveal_strlit("red");
    reveal_strlit("green");
    reveal_strlit("blue");
    reveal_strlit("yellow");
    reveal_strlit("gray");
    reveal_strlit("grey");
    reveal_strlit("transparent");
    if i == 0 {
        assert(color_keywords()[0].0 == "black"@);
    } else if i == 1 {
        assert(color_keywords()[1].0 == "white"@);
        assert(ascii_lower(name[0]) == ascii_lower("white"@[0]));
    } else if i == 2 {
        assert(color_keywords()[2].0 == "red"@);
    } else if i == 3 {
        assert(color_keywords()[3].0 == "green"@);
        assert(ascii_lower(name[0]) == ascii_lower("green"@[0]));
        assert(ascii_lower(name[0]) == ascii_lower("green"@[0]));
    } else if i == 4 {
        assert(color_keywords()[4].0 == "blue"@);
    } else if i == 5 {
        assert(color_keywords()[5].0 == "yellow"@);
    } else if i == 6 {
        assert(color_keywords()[6].0 == "gray"@);
        assert(ascii_lower(name[0]) == ascii_lower("gray"@[0]));
    } else if i == 7 {
        assert(color_keywords()[7].0 == "grey"@);
        assert(ascii_lower(name[0]) == ascii_lower("grey"@[0]));
        assert(ascii_lower(name[2]) == ascii_lower("grey"@[2]));
    } else if i == 8 {
        assert(color_keywords()[8].0 == "transparent"@);
    }
}


/// Reading a hexadecimal digit undoes writing one: each digit that the PDF
/// encoder writes for a value below sixteen, and its lower-case form, reads
/// back as that value.
pub proof fn law_hex_digit_reads_back(d: int)
    requires
        0 <= d < 16,
    ensures
        hex_digit_value(crate::pdf::encoding::hex_digit(d)) == Some(d as u8),
        hex_digit_value(ascii_lower(crate::pdf::encoding::hex_digit(d))) == Some(d as u8),
{
}

} // verus!
