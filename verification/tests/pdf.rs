use resid::error::AppError;
use resid::font::types::{ShapedGlyph, ShapedRun};
use resid::pdf::encoding::encode_cids;
use resid::pdf::font::{build_to_unicode_cmap, cid_width_entries};

fn glyph(id: u32, x_advance: i32, cluster: u32) -> ShapedGlyph {
    ShapedGlyph { id, x_advance, y_advance: 0, x_offset: 0, y_offset: 0, cluster }
}

const HEAD: &str = "/CIDInit /ProcSet findresource begin\n12 dict begin\nbegincmap\n/CIDSystemInfo <<\n/Registry (Adobe)\n/Ordering (UCS)\n/Supplement 0\n>> def\n/CMapName /NevisUnicode def\n/CMapType 2 def\n1 begincodespacerange\n<0000> <FFFF>\nendcodespacerange\n";
const TAIL: &str = "endbfchar\nendcmap\nCMapName currentdict /CMap defineresource pop\nend\nend\n";

#[test]
fn encodes_glyph_ids_as_two_big_endian_bytes() {
    assert_eq!(encode_cids(&[0x0102, 0xFFFF, 7]).unwrap(), vec![1, 2, 0xFF, 0xFF, 0, 7]);
    assert_eq!(encode_cids(&[]).unwrap(), Vec::<u8>::new());
}

#[test]
fn glyph_id_past_two_bytes_cannot_be_encoded() {
    match encode_cids(&[1, 0x1_0000]) {
        Err(AppError::PdfWriter(message)) => assert_eq!(message, "glyph ID exceeds PDF CID range"),
        other => panic!("unexpected {other:?}"),
    }
}

#[test]
fn encoded_ids_decode_back() {
    let ids = [0u32, 1, 255, 256, 4660, 65535];
    let bytes = encode_cids(&ids).unwrap();
    let back: Vec<u32> = bytes.chunks(2).map(|p| p[0] as u32 * 256 + p[1] as u32).collect();
    assert_eq!(back, ids.to_vec());
}

#[test]
fn cmap_maps_each_glyph_to_its_cluster_text_in_id_order() {
    let runs = vec![ShapedRun {
        text: "ab".to_string(),
        glyphs: vec![glyph(5, 10, 0), glyph(3, 20, 1)],
    }];
    let bytes = build_to_unicode_cmap(&runs).unwrap();
    let expected = format!("{HEAD}2 beginbfchar\n<0003> <0062>\n<0005> <0061>\n{TAIL}");
    assert_eq!(String::from_utf8(bytes).unwrap(), expected);
}

#[test]
fn cmap_keeps_the_first_text_of_a_repeated_glyph() {
    let runs = vec![
        ShapedRun { text: "xy".to_string(), glyphs: vec![glyph(9, 1, 1), glyph(9, 1, 0)] },
        ShapedRun { text: "z".to_string(), glyphs: vec![glyph(9, 1, 0), glyph(2, 1, 1)] },
    ];
    let bytes = build_to_unicode_cmap(&runs).unwrap();
    let expected = format!("{HEAD}1 beginbfchar\n<0009> <0079>\n{TAIL}");
    assert_eq!(String::from_utf8(bytes).unwrap(), expected);
}

#[test]
fn cmap_writes_clusters_of_several_characters_and_surrogate_pairs() {
    let runs = vec![ShapedRun {
        text: "fi\u{1F600}".to_string(),
        glyphs: vec![glyph(1, 0, 0), glyph(2, 0, 2)],
    }];
    let bytes = build_to_unicode_cmap(&runs).unwrap();
    let expected = format!("{HEAD}2 beginbfchar\n<0001> <00660069>\n<0002> <D83DDE00>\n{TAIL}");
    assert_eq!(String::from_utf8(bytes).unwrap(), expected);
}

#[test]
fn empty_cmap_has_no_mappings() {
    let bytes = build_to_unicode_cmap(&[]).unwrap();
    assert_eq!(String::from_utf8(bytes).unwrap(), format!("{HEAD}0 beginbfchar\n{TAIL}"));
}

#[test]
fn cmap_refuses_a_glyph_id_past_two_bytes() {
    let runs = vec![ShapedRun { text: "a".to_string(), glyphs: vec![glyph(70000, 0, 0)] }];
    match build_to_unicode_cmap(&runs) {
        Err(AppError::PdfWriter(message)) => assert_eq!(message, "glyph ID exceeds PDF CID range"),
        other => panic!("unexpected {other:?}"),
    }
}

#[test]
fn widths_keep_the_first_advance_of_each_id_in_id_order() {
    let runs = vec![
        ShapedRun { text: "ab".to_string(), glyphs: vec![glyph(7, 300, 0), glyph(2, 100, 1)] },
        ShapedRun { text: "c".to_string(), glyphs: vec![glyph(7, 999, 0), glyph(4, 50, 0)] },
    ];
    assert_eq!(cid_width_entries(&runs).unwrap(), vec![(2, 100), (4, 50), (7, 300)]);
}

#[test]
fn widths_name_the_first_id_past_two_bytes() {
    let runs = vec![ShapedRun {
        text: "ab".to_string(),
        glyphs: vec![glyph(1, 0, 0), glyph(65536, 0, 1), glyph(70000, 0, 1)],
    }];
    match cid_width_entries(&runs) {
        Err(AppError::PdfWriter(message)) => assert_eq!(message, "glyph ID 65536 exceeds PDF CID range"),
        other => panic!("unexpected {other:?}"),
    }
}
