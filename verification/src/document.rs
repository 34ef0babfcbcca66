//! The parts of page layout that need no floating point: white-space
//! handling of text, the named page sizes, and the layout engine's font.
use vstd::prelude::*;

use crate::css::types::{ListStyleType, TextAlign, WhiteSpace};
use crate::units::Direction;
use crate::font::loader::Font;
use crate::text::{
    chars_of, join_with_space, join_words_with_space, replace_crlf, replace_crlf_chars,
    split_white_space, split_white_space_chars, str_eq_ignore_ascii_case, str_equal, string_from_chars,
    eq_ignore_ascii_case, ascii_lower, law_collapse_white_space_idempotent, is_word, strings_view,
};

verus! {

/// The text as it is laid out under a `white-space` value: preformatted
/// text keeps its characters with each `"\r\n"` turned into `"\n"`; other
/// text becomes its words joined by single spaces.
pub open spec fn normalized(text: Seq<char>, white_space: WhiteSpace) -> Seq<char> {
    match white_space {
        WhiteSpace::Pre | WhiteSpace::PreWrap => replace_crlf(text),
        WhiteSpace::NoWrap | WhiteSpace::Normal => join_with_space(split_white_space(text)),
    }
}

/// The text as it is laid out under a `white-space` value.
pub fn normalize_text(text: &str, white_space: WhiteSpace) -> (r: String)
    ensures
        r@ == normalized(text@, white_space),
{
    let chars = chars_of(text);
    match white_space {
        WhiteSpace::Pre | WhiteSpace::PreWrap => {
            let v = replace_crlf_chars(chars.as_slice());
            string_from_chars(v.as_slice())
        },
        WhiteSpace::NoWrap | WhiteSpace::Normal => {
            let words = split_white_space_chars(chars.as_slice());
            join_words_with_space(&words)
        },
    }
}

/// Laying out text that was already laid out under `normal` or `nowrap`
/// white space changes nothing more. (Preformatted text is not covered:
/// `"\r\r\n"` becomes `"\r\n"` and then `"\n"`.)
pub proof fn law_normalize_idempotent(text: Seq<char>, white_space: WhiteSpace)
    requires
        white_space == WhiteSpace::Normal || white_space == WhiteSpace::NoWrap,
    ensures
        normalized(normalized(text, white_space), white_space) == normalized(text, white_space),
{
    law_collapse_white_space_idempotent(text);
}

/// The line being filled with `word` added: the word alone on an empty
/// line, else after a space.
pub open spec fn with_word(current: Seq<char>, word: Seq<char>) -> Seq<char> {
    if current.len() == 0 {
        word
    } else {
        current + seq![' '] + word
    }
}

/// One step of greedy line breaking on the finished lines and the line
/// being filled: where the line with the word added fits, or the line is
/// empty, the word joins it; else the line is finished and the word starts
/// the next one.
pub open spec fn break_step(state: (Seq<Seq<char>>, Seq<char>), word: Seq<char>, fits: bool) -> (Seq<Seq<char>>, Seq<char>) {
    if fits || state.1.len() == 0 {
        (state.0, with_word(state.1, word))
    } else {
        (state.0.push(state.1), word)
    }
}

/// Greedy line breaking of `words`, where `fits[i]` says whether the line
/// being filled, with word `i` added, fits.
pub open spec fn break_words(words: Seq<Seq<char>>, fits: Seq<bool>) -> (Seq<Seq<char>>, Seq<char>)
    decreases words.len(),
{
    if words.len() == 0 {
        (Seq::empty(), Seq::empty())
    } else {
        break_step(break_words(words.drop_last(), fits.drop_last()), words.last(), fits.last())
    }
}

/// The lines once breaking ends: the finished ones and the last one, if it
/// holds anything.
pub open spec fn finished_lines(state: (Seq<Seq<char>>, Seq<char>)) -> Seq<Seq<char>> {
    if state.1.len() == 0 {
        state.0
    } else {
        state.0.push(state.1)
    }
}

/// How many of the words after the first do not fit on the line being
/// filled.
pub open spec fn overflowing_words(fits: Seq<bool>) -> nat
    decreases fits.len(),
{
    if fits.len() <= 1 {
        0
    } else {
        overflowing_words(fits.drop_last()) + (if fits.last() { 0nat } else { 1nat })
    }
}

/// Breaking is greedy: a line is finished exactly where a later word does
/// not fit on it, so a list of words makes one line more than it has
/// words after the first that do not fit, and a line is never left empty.
pub proof fn law_line_breaks_only_where_words_overflow(words: Seq<Seq<char>>, fits: Seq<bool>)
    requires
        fits.len() == words.len(),
        words.len() > 0,
        forall|i: int| 0 <= i < words.len() ==> is_word(#[trigger] words[i]),
    ensures
        break_words(words, fits).1.len() > 0,
        break_words(words, fits).0.len() == overflowing_words(fits),
        finished_lines(break_words(words, fits)).len() == overflowing_words(fits) + 1,
    decreases words.len(),
{
    assert(is_word(words[words.len() - 1]));
    if words.len() > 1 {
        let init = words.drop_last();
        assert forall|i: int| 0 <= i < init.len() implies is_word(#[trigger] init[i]) by {
            assert(init[i] == words[i]);
        }
        law_line_breaks_only_where_words_overflow(init, fits.drop_last());
    }
}

/// Breaking words into lines neither loses, repeats nor reorders them,
/// whatever fits: the lines joined with spaces are the words joined with
/// spaces.
pub proof fn law_line_breaking_keeps_words(words: Seq<Seq<char>>, fits: Seq<bool>)
    requires
        fits.len() == words.len(),
        forall|i: int| 0 <= i < words.len() ==> is_word(#[trigger] words[i]),
    ensures
        join_with_space(finished_lines(break_words(words, fits))) == join_with_space(words),
        break_words(words, fits).1.len() == 0 <==> words.len() == 0,
    decreases words.len(),
{
    if words.len() > 0 {
        let init = words.drop_last();
        let w = words.last();
        assert forall|i: int| 0 <= i < init.len() implies is_word(#[trigger] init[i]) by {
            assert(init[i] == words[i]);
        }
        assert(is_word(words[words.len() - 1]));
        law_line_breaking_keeps_words(init, fits.drop_last());
        let st = break_words(init, fits.drop_last());
        let (lines, cur) = st;
        assert(words =~= init.push(w));
        assert(join_with_space(init.push(w)) == if init.len() == 0 { w } else { join_with_space(init) + seq![' '] + w }) by {
            assert(init.push(w).drop_last() =~= init);
        }
        if fits.last() || cur.len() == 0 {
            let nc = with_word(cur, w);
            if cur.len() == 0 {
                assert(finished_lines(st) == lines);
                assert(nc == w);
                assert(lines.push(w).drop_last() =~= lines);
                assert(join_with_space(lines) == join_with_space(init));
                assert(init.len() == 0);
                assert(lines.len() == 0) by {
                    if lines.len() > 0 {
                        assert(false);
                    }
                }
            } else {
                assert(lines.push(nc).drop_last() =~= lines);
                assert(lines.push(cur).drop_last() =~= lines);
                assert(join_with_space(lines.push(nc)) =~= join_with_space(lines.push(cur)) + seq![' '] + w);
            }
        } else {
            assert(lines.push(cur).push(w).drop_last() =~= lines.push(cur));
        }
    }
}

/// A greedy line breaker: the lines finished so far and the line being
/// filled.
pub struct LineBreaker {
    pub lines: Vec<String>,
    pub current: String,
}

impl LineBreaker {
    /// A breaker with no lines.
    pub fn new() -> (r: LineBreaker)
        ensures
            r.lines@.len() == 0,
            r.current@.len() == 0,
    {
        LineBreaker { lines: Vec::new(), current: String::new() }
    }

    /// The line being filled with `word` added.
    pub fn candidate(&self, word: &str) -> (r: String)
        ensures
            r@ == with_word(self.current@, word@),
    {
        if self.current.as_str().is_empty() {
            return String::from_str(word);
        }
        let space = " ";
        proof {
            reveal_strlit(" ");
        }
        let mut line = self.current.clone();
        line.append(space);
        line.append(word);
        line
    }

    /// Takes in the next word, given whether the candidate line fits.
    pub fn push_word(&mut self, word: &str, candidate_fits: bool)
        ensures
            (strings_view(final(self).lines@), final(self).current@) == break_step(
                (strings_view(old(self).lines@), old(self).current@),
                word@,
                candidate_fits,
            ),
    {
        if candidate_fits || self.current.as_str().is_empty() {
            self.current = self.candidate(word);
        } else {
            let finished = self.current.clone();
            let ghost before = self.lines@;
            self.lines.push(finished);
            self.current = String::from_str(word);
            assert(strings_view(self.lines@) =~= strings_view(before).push(finished@));
        }
    }

    /// The lines once the words are in: the finished ones and the last one,
    /// if it holds anything.
    pub fn finish(self) -> (r: Vec<String>)
        ensures
            strings_view(r@) == finished_lines((strings_view(self.lines@), self.current@)),
    {
        let mut lines = self.lines;
        if !self.current.as_str().is_empty() {
            let ghost before = lines@;
            lines.push(self.current);
            assert(strings_view(lines@) =~= strings_view(before).push(self.current@));
        }
        lines
    }
}

/// Which point of its box a line of text is placed against.
#[derive(Debug, Clone, Copy, PartialEq, Eq, Structural)]
pub enum LineAnchor {
    /// The line starts at the box's left edge.
    Left,
    /// The line is centred in the box.
    Center,
    /// The line ends at the box's right edge.
    Right,
}

/// Where a line is placed: centred, at the left or right edge as asked, and
/// for `start` (and `justify`) at the edge where the writing direction
/// begins.
pub open spec fn anchor_of(direction: Direction, text_align: TextAlign) -> LineAnchor {
    match text_align {
        TextAlign::Center => LineAnchor::Center,
        TextAlign::Left => LineAnchor::Left,
        TextAlign::Right => LineAnchor::Right,
        TextAlign::Start | TextAlign::Justify => match direction {
            Direction::LTR => LineAnchor::Left,
            Direction::RTL => LineAnchor::Right,
        },
    }
}

/// Where a line of text with this alignment and direction is placed.
pub fn line_anchor(direction: Direction, text_align: TextAlign) -> (r: LineAnchor)
    ensures
        r == anchor_of(direction, text_align),
{
    match text_align {
        TextAlign::Center => LineAnchor::Center,
        TextAlign::Left => LineAnchor::Left,
        TextAlign::Right => LineAnchor::Right,
        TextAlign::Start | TextAlign::Justify => match direction {
            Direction::LTR => LineAnchor::Left,
            Direction::RTL => LineAnchor::Right,
        },
    }
}

/// The share of the free space of its box that a line leaves before it,
/// in halves: none at the left edge, half when centred, all at the right.
pub open spec fn space_before_in_halves(anchor: LineAnchor) -> int {
    match anchor {
        LineAnchor::Left => 0,
        LineAnchor::Center => 1,
        LineAnchor::Right => 2,
    }
}

/// Left, centred and right alignment place a line the same way whatever
/// the writing direction.
pub proof fn law_explicit_alignment_ignores_direction(d1: Direction, d2: Direction, a: TextAlign)
    requires
        a == TextAlign::Left || a == TextAlign::Center || a == TextAlign::Right,
    ensures
        anchor_of(d1, a) == anchor_of(d2, a),
{
}

/// A left-aligned line leaves no free space before it, a centred one half
/// of it and a right-aligned one all of it; a `start`-aligned line begins
/// at the edge where its writing direction begins, the left one for
/// left-to-right text and the right one for right-to-left text.
pub proof fn law_alignment_places_free_space(d: Direction)
    ensures
        space_before_in_halves(anchor_of(d, TextAlign::Left)) == 0,
        space_before_in_halves(anchor_of(d, TextAlign::Center)) == 1,
        space_before_in_halves(anchor_of(d, TextAlign::Right)) == 2,
        space_before_in_halves(anchor_of(d, TextAlign::Start)) == (if d == Direction::LTR { 0int } else { 2int }),
{
}

/// The page sizes that can be asked for by name.
#[derive(Debug, Clone, Copy, PartialEq, Eq, Structural)]
pub enum PageKind {
    A3,
    A4Portrait,
    A4Landscape,
    A5,
    A6,
}

/// The name of a page size.
pub open spec fn page_kind_name(kind: PageKind) -> Seq<char> {
    match kind {
        PageKind::A3 => "a3"@,
        PageKind::A4Portrait => "a4"@,
        PageKind::A4Landscape => "a4-landscape"@,
        PageKind::A5 => "a5"@,
        PageKind::A6 => "a6"@,
    }
}

/// The page sizes in the order in which names are looked up.
pub open spec fn page_kinds() -> Seq<PageKind> {
    seq![PageKind::A3, PageKind::A4Portrait, PageKind::A4Landscape, PageKind::A5, PageKind::A6]
}

/// The first page size of `kinds` whose name equals `name` up to ASCII case.
pub open spec fn first_kind_named(kinds: Seq<PageKind>, name: Seq<char>) -> Option<PageKind>
    decreases kinds.len(),
{
    if kinds.len() == 0 {
        None
    } else if eq_ignore_ascii_case(page_kind_name(kinds[0]), name) {
        Some(kinds[0])
    } else {
        first_kind_named(kinds.drop_first(), name)
    }
}

/// No name matches two page sizes: the names differ in length or in
/// their second character, a digit.
proof fn lemma_page_names_distinct(name: Seq<char>, k1: PageKind, k2: PageKind)
    requires
        k1 != k2,
        eq_ignore_ascii_case(name, page_kind_name(k1)),
    ensures
        !eq_ignore_ascii_case(name, page_kind_name(k2)),
{
    reveal_strlit("a3");
    reveal_strlit("a4");
    reveal_strlit("a4-landscape");
    reveal_strlit("a5");
    reveal_strlit("a6");
    let x = page_kind_name(k1);
    let y = page_kind_name(k2);
    if x.len() == y.len() && x.len() == 2 && eq_ignore_ascii_case(name, y) {
        assert(ascii_lower(name[1]) == ascii_lower(x[1]));
        assert(ascii_lower(name[1]) == ascii_lower(y[1]));
    }
}

/// Every page size is found by its own name, written in any ASCII case.
pub proof fn law_page_kind_by_name(kind: PageKind, name: Seq<char>)
    requires
        eq_ignore_ascii_case(name, page_kind_name(kind)),
    ensures
        first_kind_named(page_kinds(), name) == Some(kind),
{
    let ks = page_kinds();
    assert forall|k: PageKind| k != kind implies !eq_ignore_ascii_case(name, #[trigger] page_kind_name(k)) by {
        lemma_page_names_distinct(name, kind, k);
    }
    reveal_with_fuel(first_kind_named, 6);
    assert(ks.drop_first() =~= seq![PageKind::A4Portrait, PageKind::A4Landscape, PageKind::A5, PageKind::A6]);
    assert(ks.drop_first().drop_first() =~= seq![PageKind::A4Landscape, PageKind::A5, PageKind::A6]);
    assert(ks.drop_first().drop_first().drop_first() =~= seq![PageKind::A5, PageKind::A6]);
    assert(ks.drop_first().drop_first().drop_first().drop_first() =~= seq![PageKind::A6]);
    assert(ks.drop_first().drop_first().drop_first().drop_first().drop_first() =~= Seq::<PageKind>::empty());
}

impl PageKind {
    /// The name by which the page size is asked for.
    pub fn name(&self) -> (r: &'static str)
        ensures
            r@ == page_kind_name(*self),
    {
        match self {
            PageKind::A3 => "a3",
            PageKind::A4Portrait => "a4",
            PageKind::A4Landscape => "a4-landscape",
            PageKind::A5 => "a5",
            PageKind::A6 => "a6",
        }
    }

    /// The page size named `name`, compared without regard to ASCII case,
    /// or `None` where no page size has that name.
    pub fn from_name(name: &str) -> (r: Option<PageKind>)
        ensures
            r == first_kind_named(page_kinds(), name@),
    {
        let kinds = vec![PageKind::A3, PageKind::A4Portrait, PageKind::A4Landscape, PageKind::A5, PageKind::A6];
        assert(kinds@ =~= page_kinds());
        let mut i: usize = 0;
        assert(kinds@.skip(0) =~= kinds@);
        while i < kinds.len()
            invariant
                i <= kinds@.len(),
                first_kind_named(page_kinds(), name@) == first_kind_named(kinds@.skip(i as int), name@),
            decreases kinds@.len() - i,
        {
            let kind = kinds[i];
            if str_eq_ignore_ascii_case(kind.name(), name) {
                return Some(kind);
            }
            assert(kinds@.skip(i as int).drop_first() =~= kinds@.skip(i + 1));
            i += 1;
        }
        None
    }
}

/// The marker that a list item's first line begins with.
pub open spec fn list_marker_text(style: ListStyleType) -> Seq<char> {
    match style {
        ListStyleType::Disc => "\u{2022} "@,
        ListStyleType::Circle => "\u{25cb} "@,
        ListStyleType::Square => "\u{25a0} "@,
        ListStyleType::Decimal => "1. "@,
        ListStyleType::NoMarker => ""@,
    }
}

/// The marker that a list item's first line begins with: a bullet of the
/// list style, `"1. "` for decimal lists, nothing for none.
pub fn list_marker(style: ListStyleType) -> (r: &'static str)
    ensures
        r@ == list_marker_text(style),
{
    match style {
        ListStyleType::Disc => "\u{2022} ",
        ListStyleType::Circle => "\u{25cb} ",
        ListStyleType::Square => "\u{25a0} ",
        ListStyleType::Decimal => "1. ",
        ListStyleType::NoMarker => "",
    }
}

/// Whether a block element with this tag groups table rows (`thead`,
/// `tbody` or `tfoot`), so that the rows inside it belong to the table.
pub fn is_table_section(tag: &str) -> (r: bool)
    ensures
        r == (tag@ == "thead"@ || tag@ == "tbody"@ || tag@ == "tfoot"@),
{
    str_equal(tag, "thead") || str_equal(tag, "tbody") || str_equal(tag, "tfoot")
}

/// Lays documents out in pages, setting their text in one font.
pub struct LayoutEngine<'a> {
    font: &'a Font,
}

impl<'a> LayoutEngine<'a> {
    /// A layout engine that sets text in `font`.
    pub fn new(font: &'a Font) -> (r: Self)
        ensures
            r.font() == font,
    {
        LayoutEngine { font }
    }

    /// The font in which text is set.
    pub closed spec fn font(&self) -> &'a Font {
        self.font
    }

    /// The font in which text is set.
    pub fn text_font(&self) -> (r: &'a Font)
        ensures
            r == self.font(),
    {
        self.font
    }
}

} // verus!
