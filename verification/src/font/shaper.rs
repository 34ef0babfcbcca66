//! Bidirectional shaping: the text is cut into visual runs of one
//! direction each, and each run is shaped on its own.
use vstd::prelude::*;
use vstd::string::StringSliceAdditionalSpecFns;
use vstd::utf8::{
    decode_utf8, encode_utf8, encode_utf8_decode_utf8, encode_utf8_valid_utf8, is_char_boundary,
    is_char_boundary_iff_not_is_continuation_byte, is_char_boundary_start_end_of_seq,
    valid_utf8, valid_utf8_split,
};

use crate::error::AppError;
use crate::font::loader::{face_units_per_em, rustybuzz_units_per_em, Font};
use crate::font::types::{Direction, ShapedGlyph};

verus! {

/// The glyphs that rustybuzz makes of `text` with the face in `data` (face
/// index 0), shaped right to left where `rtl` holds, in the order it gives
/// them; `None` where the data does not parse as a font.
pub uninterp spec fn rustybuzz_shape(data: Seq<u8>, text: Seq<char>, rtl: bool) -> Option<Seq<ShapedGlyph>>;

/// The visual runs that unicode-bidi finds in the first paragraph of `text`
/// with the given paragraph direction (byte ranges, in visual order), and
/// whether the resolved level of each byte of `text` is right to left.
pub uninterp spec fn unicode_bidi_visual_runs(text: Seq<char>, rtl: bool) -> (Seq<(usize, usize)>, Seq<bool>);

/// Shapes `text` with rustybuzz: `Face::from_slice(data, 0)`, a
/// `UnicodeBuffer` holding `text` with its direction set, and
/// `rustybuzz::shape` without features. Claimed: the result is the named
/// function of the arguments; it is `Some` exactly when the face parses
/// (the same test that `face_units_per_em` makes); and every cluster is
/// a byte offset of a character of `text` (rustybuzz numbers clusters by
/// `char_indices` and merges them by their minimum), hence below its length.
#[verifier::external_body]
pub(crate) fn shape_text(data: &[u8], text: &str, rtl: bool) -> (r: Option<Vec<ShapedGlyph>>)
    ensures
        r is Some <==> rustybuzz_units_per_em(data@) is Some,
        match r {
            Some(g) => rustybuzz_shape(data@, text@, rtl) == Some(g@),
            None => rustybuzz_shape(data@, text@, rtl) is None,
        },
        r matches Some(g) ==> forall|i: int| 0 <= i < g@.len() ==> (#[trigger] g@[i]).cluster < text.spec_bytes().len(),
{
    let face = rustybuzz::Face::from_slice(data, 0)?;
    let mut buffer = rustybuzz::UnicodeBuffer::new();
    buffer.push_str(text);
    buffer.set_direction(if rtl { rustybuzz::Direction::RightToLeft } else { rustybuzz::Direction::LeftToRight });
    let out = rustybuzz::shape(&face, &[], buffer);
    Some(out.glyph_infos().iter().zip(out.glyph_positions()).map(|(i, p)| ShapedGlyph {
        id: i.glyph_id, x_advance: p.x_advance, y_advance: p.y_advance,
        x_offset: p.x_offset, y_offset: p.y_offset, cluster: i.cluster,
    }).collect())
}

/// Runs the unicode-bidi algorithm on `text` (`BidiInfo::new` with the
/// paragraph level of the direction) and returns the visual runs of its
/// first paragraph over the paragraph's whole range (`visual_runs`), as
/// byte ranges, with `Level::is_rtl` of each byte's level. Claimed: the
/// result is the named function of the arguments; there is one level per
/// byte; and each run lies within the text and begins and ends on a
/// character boundary (runs split where the per-byte levels change, and
/// unicode-bidi gives all bytes of a character the same level).
#[verifier::external_body]
fn bidi_visual_runs(text: &str, rtl: bool) -> (r: (Vec<(usize, usize)>, Vec<bool>))
    requires
        text@.len() > 0,
    ensures
        (r.0@, r.1@) == unicode_bidi_visual_runs(text@, rtl),
        r.1@.len() == text.spec_bytes().len(),
        forall|i: int| 0 <= i < r.0@.len() ==> {
            let run = #[trigger] r.0@[i];
            &&& run.0 <= run.1 <= text.spec_bytes().len()
            &&& is_char_boundary(text.spec_bytes(), run.0 as int)
            &&& is_char_boundary(text.spec_bytes(), run.1 as int)
        },
{
    let level = if rtl { unicode_bidi::Level::rtl() } else { unicode_bidi::Level::ltr() };
    let bidi = unicode_bidi::BidiInfo::new(text, Some(level));
    let para = &bidi.paragraphs[0];
    let (_, runs) = bidi.visual_runs(para, para.range.clone());
    (runs.iter().map(|run| (run.start, run.end)).collect(), bidi.levels.iter().map(|l| l.is_rtl()).collect())
}

/// The glyphs moved to byte offset `offset`: each cluster shifted by it.
pub open spec fn shift_clusters(glyphs: Seq<ShapedGlyph>, offset: int) -> Seq<ShapedGlyph> {
    glyphs.map_values(|g: ShapedGlyph| ShapedGlyph {
        id: g.id,
        x_advance: g.x_advance,
        y_advance: g.y_advance,
        x_offset: g.x_offset,
        y_offset: g.y_offset,
        cluster: (g.cluster + offset) as u32,
    })
}

/// The glyphs of one visual run of a text with UTF-8 bytes `bytes`: none
/// for an empty run; else the run's characters shaped in the direction of
/// the level of its first byte, with clusters counted from the start of the
/// whole text.
pub open spec fn run_glyphs(data: Seq<u8>, bytes: Seq<u8>, run: (usize, usize), levels: Seq<bool>) -> Seq<ShapedGlyph> {
    if run.0 == run.1 {
        Seq::empty()
    } else {
        let piece = decode_utf8(bytes.subrange(run.0 as int, run.1 as int));
        shift_clusters(rustybuzz_shape(data, piece, levels[run.0 as int]).unwrap(), run.0 as int)
    }
}

/// The glyphs of the runs, in visual order.
pub open spec fn shaped_runs(data: Seq<u8>, bytes: Seq<u8>, runs: Seq<(usize, usize)>, levels: Seq<bool>) -> Seq<ShapedGlyph>
    decreases runs.len(),
{
    if runs.len() == 0 {
        Seq::empty()
    } else {
        shaped_runs(data, bytes, runs.drop_last(), levels) + run_glyphs(data, bytes, runs.last(), levels)
    }
}

/// What shaping `text` with the face in `data` gives in a paragraph of
/// direction `direction`: the glyphs of the visual runs that unicode-bidi
/// finds, in visual order.
pub open spec fn bidi_shaped(data: Seq<u8>, text: Seq<char>, direction: Direction) -> Seq<ShapedGlyph> {
    let (runs, levels) = unicode_bidi_visual_runs(text, direction == Direction::RTL);
    shaped_runs(data, encode_utf8(text), runs, levels)
}

/// Where the whole text forms one visual run, shaping it by runs is
/// shaping all of it at once in that run's direction.
pub proof fn law_single_run_is_plain_shaping(data: Seq<u8>, text: Seq<char>, direction: Direction)
    requires
        0 < encode_utf8(text).len() <= usize::MAX,
        unicode_bidi_visual_runs(text, direction == Direction::RTL).0 == seq![(0usize, encode_utf8(text).len() as usize)],
    ensures
        bidi_shaped(data, text, direction) == rustybuzz_shape(
            data,
            text,
            unicode_bidi_visual_runs(text, direction == Direction::RTL).1[0],
        ).unwrap(),
{
    let (runs, levels) = unicode_bidi_visual_runs(text, direction == Direction::RTL);
    let bytes = encode_utf8(text);
    let run = runs[0];
    assert(runs.len() == 1);
    assert(runs.drop_last() =~= Seq::<(usize, usize)>::empty());
    assert(runs.last() == run);
    assert(shaped_runs(data, bytes, runs.drop_last(), levels) == Seq::<ShapedGlyph>::empty());
    assert(bytes.subrange(0, bytes.len() as int) =~= bytes);
    encode_utf8_decode_utf8(text);
    let g = rustybuzz_shape(data, text, levels[0]).unwrap();
    assert(shift_clusters(g, 0) =~= g);
    assert(shaped_runs(data, bytes, runs, levels) =~= Seq::<ShapedGlyph>::empty() + run_glyphs(data, bytes, run, levels));
}

/// The text shaper.
pub struct Shaper;

/// A character boundary of a text stays one in the text's tail from an
/// earlier boundary on.
proof fn lemma_boundary_in_tail(bytes: Seq<u8>, start: int, end: int)
    requires
        valid_utf8(bytes),
        0 <= start <= end <= bytes.len(),
        is_char_boundary(bytes, start),
        is_char_boundary(bytes, end),
    ensures
        valid_utf8(bytes.subrange(start, bytes.len() as int)),
        is_char_boundary(bytes.subrange(start, bytes.len() as int), end - start),
{
    valid_utf8_split(bytes, start);
    let tail = bytes.subrange(start, bytes.len() as int);
    if end - start == 0 {
    } else if end == bytes.len() {
        is_char_boundary_start_end_of_seq(tail);
    } else {
        is_char_boundary_iff_not_is_continuation_byte(bytes, end);
        is_char_boundary_iff_not_is_continuation_byte(tail, end - start);
        assert(tail[end - start] == bytes[end]);
    }
}

/// The characters of the bytes `start..end` of `text`, given that both
/// are character boundaries.
pub(crate) fn slice_text(text: &str, start: usize, end: usize) -> (piece: &str)
    requires
        start <= end <= text.spec_bytes().len(),
        is_char_boundary(text.spec_bytes(), start as int),
        is_char_boundary(text.spec_bytes(), end as int),
    ensures
        piece.spec_bytes() == text.spec_bytes().subrange(start as int, end as int),
        piece@ == decode_utf8(text.spec_bytes().subrange(start as int, end as int)),
{
    proof {
        encode_utf8_valid_utf8(text@);
        lemma_boundary_in_tail(text.spec_bytes(), start as int, end as int);
    }
    let (_, rest) = text.split_at(start);
    let (piece, _) = rest.split_at(end - start);
    proof {
        assert(piece.spec_bytes() =~= text.spec_bytes().subrange(start as int, end as int));
        encode_utf8_decode_utf8(piece@);
    }
    piece
}

impl Shaper {
    /// Shapes `text` in a paragraph of the given direction: nothing for an
    /// empty text; a font error where the font's data does not parse; else
    /// the glyphs of each visual run, in visual order, with clusters counted
    /// in bytes from the start of `text`.
    pub fn shape_glyphs(font: &Font, text: &str, direction: Direction) -> (r: Result<Vec<ShapedGlyph>, AppError>)
        requires
            text.spec_bytes().len() <= u32::MAX,
        ensures
            text@.len() == 0 ==> (r matches Ok(g) && g@.len() == 0),
            text@.len() > 0 && rustybuzz_units_per_em(font.data@) is None ==> (r matches Err(e) && e == AppError::FontError(e->FontError_0) && e->FontError_0@ == "Invalid font"@),
            text@.len() > 0 && rustybuzz_units_per_em(font.data@) is Some ==> (r matches Ok(g) && g@ == bidi_shaped(font.data@, text@, direction)),
            r matches Ok(g) ==> forall|i: int| 0 <= i < g@.len() ==> (#[trigger] g@[i]).cluster < text.spec_bytes().len(),
    {
        if text.is_empty() {
            return Ok(Vec::new());
        }
        if face_units_per_em(font.data.as_slice()).is_none() {
            return Err(AppError::FontError(String::from_str("Invalid font")));
        }
        let rtl = match direction {
            Direction::RTL => true,
            Direction::LTR => false,
        };
        let (runs, levels) = bidi_visual_runs(text, rtl);
        let ghost bytes = text.spec_bytes();
        let mut glyphs: Vec<ShapedGlyph> = Vec::new();
        let mut i: usize = 0;
        while i < runs.len()
            invariant
                i <= runs@.len(),
                bytes == text.spec_bytes(),
                bytes.len() <= u32::MAX,
                levels@.len() == bytes.len(),
                rustybuzz_units_per_em(font.data@) is Some,
                forall|j: int| 0 <= j < runs@.len() ==> {
                    let run = #[trigger] runs@[j];
                    &&& run.0 <= run.1 <= bytes.len()
                    &&& is_char_boundary(bytes, run.0 as int)
                    &&& is_char_boundary(bytes, run.1 as int)
                },
                glyphs@ == shaped_runs(font.data@, bytes, runs@.take(i as int), levels@),
                forall|j: int| 0 <= j < glyphs@.len() ==> (#[trigger] glyphs@[j]).cluster < bytes.len(),
            decreases runs@.len() - i,
        {
            let (start, end) = runs[i];
            assert(runs@.take(i + 1).drop_last() =~= runs@.take(i as int));
            if start != end {
                let piece = slice_text(text, start, end);
                let rtl_run = levels[start];
                match shape_text(font.data.as_slice(), piece, rtl_run) {
                    Some(shaped) => {
                        Self::append_shifted(&mut glyphs, &shaped, start, end);
                    },
                    None => {},
                }
            }
            i += 1;
        }
        assert(runs@.take(runs@.len() as int) =~= runs@);
        Ok(glyphs)
    }

    /// Appends `shaped` to `glyphs` with each cluster moved by `start`.
    fn append_shifted(glyphs: &mut Vec<ShapedGlyph>, shaped: &Vec<ShapedGlyph>, start: usize, end: usize)
        requires
            start <= end <= u32::MAX,
            forall|j: int| 0 <= j < shaped@.len() ==> (#[trigger] shaped@[j]).cluster < end - start,
        ensures
            final(glyphs)@ == old(glyphs)@ + shift_clusters(shaped@, start as int),
            forall|j: int| old(glyphs)@.len() <= j < final(glyphs)@.len() ==> (#[trigger] final(glyphs)@[j]).cluster < end,
    {
        let ghost before = glyphs@;
        let mut k: usize = 0;
        while k < shaped.len()
            invariant
                k <= shaped@.len(),
                start <= end <= u32::MAX,
                forall|j: int| 0 <= j < shaped@.len() ==> (#[trigger] shaped@[j]).cluster < end - start,
                glyphs@ == before + shift_clusters(shaped@.take(k as int), start as int),
                forall|j: int| before.len() <= j < glyphs@.len() ==> (#[trigger] glyphs@[j]).cluster < end,
            decreases shaped@.len() - k,
        {
            let g = shaped[k];
            let moved = ShapedGlyph {
                id: g.id,
                x_advance: g.x_advance,
                y_advance: g.y_advance,
                x_offset: g.x_offset,
                y_offset: g.y_offset,
                cluster: start as u32 + g.cluster,
            };
            glyphs.push(moved);
            k += 1;
            assert(shift_clusters(shaped@.take(k as int), start as int) =~= shift_clusters(shaped@.take(k - 1), start as int).push(moved));
        }
        assert(shaped@.take(shaped@.len() as int) =~= shaped@);
    }
}

} // verus!
