use resid::error::AppError;
use resid::font::loader::Font;
use resid::font::shaper::Shaper;
use resid::font::types::ShapedGlyph;
use resid::units::Direction;

fn be16(out: &mut Vec<u8>, v: u16) {
    out.extend_from_slice(&v.to_be_bytes());
}

fn be32(out: &mut Vec<u8>, v: u32) {
    out.extend_from_slice(&v.to_be_bytes());
}

/// A TrueType file with the four tables that a face needs (`head`, `hhea`,
/// `hmtx`, `maxp`), one glyph of advance `advance`, and no character map:
/// every character shapes to glyph 0.
fn tiny_font(units_per_em: u16, advance: u16) -> Vec<u8> {
    let mut head = Vec::new();
    be32(&mut head, 0x0001_0000);
    be32(&mut head, 0x0001_0000);
    be32(&mut head, 0);
    be32(&mut head, 0x5F0F_3CF5);
    be16(&mut head, 0);
    be16(&mut head, units_per_em);
    head.extend_from_slice(&[0u8; 16]);
    head.extend_from_slice(&[0u8; 8]);
    be16(&mut head, 0);
    be16(&mut head, 0);
    be16(&mut head, 2);
    be16(&mut head, 0);
    be16(&mut head, 0);
    head.extend_from_slice(&[0u8; 2]);
    let mut hhea = Vec::new();
    be32(&mut hhea, 0x0001_0000);
    be16(&mut hhea, 800);
    be16(&mut hhea, 0xFF38);
    be16(&mut hhea, 0);
    hhea.extend_from_slice(&[0u8; 24]);
    be16(&mut hhea, 1);
    let mut hmtx = Vec::new();
    be16(&mut hmtx, advance);
    be16(&mut hmtx, 0);
    let mut maxp = Vec::new();
    be32(&mut maxp, 0x0000_5000);
    be16(&mut maxp, 1);
    maxp.extend_from_slice(&[0u8; 2]);
    let tables: Vec<(&[u8; 4], Vec<u8>)> =
        vec![(b"head", head), (b"hhea", hhea), (b"hmtx", hmtx), (b"maxp", maxp)];
    let mut out = Vec::new();
    be32(&mut out, 0x0001_0000);
    be16(&mut out, tables.len() as u16);
    be16(&mut out, 64);
    be16(&mut out, 2);
    be16(&mut out, 0);
    let mut offset = 12 + 16 * tables.len() as u32;
    for (tag, data) in &tables {
        out.extend_from_slice(&tag[..]);
        be32(&mut out, 0);
        be32(&mut out, offset);
        be32(&mut out, data.len() as u32);
        offset += data.len() as u32;
    }
    for (_, data) in &tables {
        out.extend_from_slice(data);
    }
    out
}

fn fonts() -> Vec<Font> {
    vec![
        Font { family: "B-Nazanin".to_string(), data: tiny_font(2048, 600) },
        Font { family: "Vazirmatn".to_string(), data: tiny_font(1000, 500) },
    ]
}

#[test]
fn font_file_can_be_loaded() {
    let font = Font::get_font("B-Nazanin", &fonts()).unwrap();
    assert_eq!(font.family, "B-Nazanin");
    assert!(!font.data.is_empty());
}

#[test]
fn unknown_font_is_an_error() {
    match Font::get_font("Arial", &fonts()) {
        Err(AppError::FontError(message)) => assert_eq!(message, "Font is not available."),
        other => panic!("unexpected {other:?}"),
    }
}

#[test]
fn reads_units_per_em() {
    let font = Font::get_font("Vazirmatn", &fonts()).unwrap();
    assert_eq!(font.units_per_em().unwrap(), 1000);
    let other = Font::get_font("B-Nazanin", &fonts()).unwrap();
    assert_eq!(other.units_per_em().unwrap(), 2048);
}

#[test]
fn bytes_that_are_no_font_are_an_error() {
    let font = Font { family: "Broken".to_string(), data: vec![1, 2, 3] };
    assert!(matches!(font.units_per_em(), Err(AppError::FontError(_))));
    match Shaper::shape_glyphs(&font, "abc", Direction::LTR) {
        Err(AppError::FontError(message)) => assert_eq!(message, "Invalid font"),
        other => panic!("unexpected {other:?}"),
    }
    match ShapedGlyph::get_shaped_glyphs(&font, "abc", Direction::LTR) {
        Err(AppError::FontError(message)) => assert_eq!(message, "Invalid font"),
        other => panic!("unexpected {other:?}"),
    }
}

#[test]
fn empty_text_shapes_to_nothing_even_without_a_font() {
    let font = Font { family: "Broken".to_string(), data: vec![] };
    assert_eq!(Shaper::shape_glyphs(&font, "", Direction::RTL).unwrap(), vec![]);
}

#[test]
fn shapes_left_to_right_text_with_byte_clusters() {
    let font = Font::get_font("Vazirmatn", &fonts()).unwrap();
    let glyphs = Shaper::shape_glyphs(&font, "ab c", Direction::LTR).unwrap();
    assert_eq!(glyphs.iter().map(|g| g.cluster).collect::<Vec<_>>(), vec![0, 1, 2, 3]);
    assert!(glyphs.iter().all(|g| g.id == 0 && g.x_advance == 500));
}

#[test]
fn clusters_count_bytes_of_the_whole_text() {
    let font = Font::get_font("Vazirmatn", &fonts()).unwrap();
    let text = "سلام";
    let glyphs = Shaper::shape_glyphs(&font, text, Direction::RTL).unwrap();
    assert_eq!(glyphs.len(), 4);
    let mut clusters = glyphs.iter().map(|g| g.cluster).collect::<Vec<_>>();
    assert_eq!(clusters, vec![6, 4, 2, 0]);
    clusters.sort();
    assert!(clusters.iter().all(|&c| (c as usize) < text.len() && text.is_char_boundary(c as usize)));
}

#[test]
fn mixed_direction_text_shapes_each_run() {
    let font = Font::get_font("Vazirmatn", &fonts()).unwrap();
    let text = "ab سل";
    let glyphs = Shaper::shape_glyphs(&font, text, Direction::LTR).unwrap();
    assert_eq!(glyphs.iter().map(|g| g.cluster).collect::<Vec<_>>(), vec![0, 1, 2, 5, 3]);
}

#[test]
fn shaping_without_runs_keeps_logical_clusters() {
    let font = Font::get_font("Vazirmatn", &fonts()).unwrap();
    let glyphs = ShapedGlyph::get_shaped_glyphs(&font, "xy", Direction::LTR).unwrap();
    assert_eq!(glyphs.iter().map(|g| g.cluster).collect::<Vec<_>>(), vec![0, 1]);
}

#[test]
fn one_run_shapes_as_the_whole_text() {
    let font = Font::get_font("Vazirmatn", &fonts()).unwrap();
    let by_runs = Shaper::shape_glyphs(&font, "plain text", Direction::LTR).unwrap();
    let whole = ShapedGlyph::get_shaped_glyphs(&font, "plain text", Direction::LTR).unwrap();
    assert_eq!(by_runs, whole);
}

#[test]
fn shape_returns_glyphs() {
    let font = Font::get_font("B-Nazanin", &fonts()).unwrap();
    let text = "سلام دنیا";

    let glyphs = Shaper::shape_glyphs(&font, text, Direction::RTL).expect("failed to shape text");

    assert!(!glyphs.is_empty());
}

#[test]
fn shape_return_glyphs() {
    let font = Font::get_font("B-Nazanin", &fonts()).unwrap();
    let glyphs = ShapedGlyph::get_shaped_glyphs(&font, "سلام دنیا", Direction::RTL)
        .expect("failed to shape text");
    assert!(!glyphs.is_empty())
}
