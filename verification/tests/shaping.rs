use ttfkit::shaper::{decode_utf8, glyph_index, Shaper};
use ttfkit::table::cmap::CMapGroup;

fn latin_map() -> Vec<CMapGroup> {
    vec![
        CMapGroup { start_char: 0x41, end_char: 0x5A, start_glyph: 10 },
        CMapGroup { start_char: 0x61, end_char: 0x7A, start_glyph: 40 },
        CMapGroup { start_char: 0x1F600, end_char: 0x1F600, start_glyph: 70000 },
    ]
}

#[test]
fn decodes_multibyte_characters() {
    assert_eq!(decode_utf8("aé😀"), vec![0x61, 0xE9, 0x1F600]);
    assert_eq!(decode_utf8(""), Vec::<u32>::new());
}

#[test]
fn glyph_index_offsets_into_group() {
    let map = latin_map();
    assert_eq!(glyph_index(&map, 0x41), 10);
    assert_eq!(glyph_index(&map, 0x43), 12);
    assert_eq!(glyph_index(&map, 0x7A), 65);
}

#[test]
fn glyph_index_missing_and_oversized_give_zero() {
    let map = latin_map();
    assert_eq!(glyph_index(&map, 0x30), 0);
    assert_eq!(glyph_index(&map, 0x1F600), 0);
    assert_eq!(glyph_index(&[], 0x41), 0);
}

#[test]
fn map_to_glyphs_keeps_order_and_clusters() {
    let map = latin_map();
    let infos = Shaper::new(&map).map_to_glyphs(&[0x62, 0x41, 0x20]);
    assert_eq!(infos.len(), 3);
    assert_eq!((infos[0].glyph_id, infos[0].cluster), (41, 0));
    assert_eq!((infos[1].glyph_id, infos[1].cluster), (10, 1));
    assert_eq!((infos[2].glyph_id, infos[2].cluster), (0, 2));
}

#[test]
fn shape_counts_characters_not_bytes() {
    let map = latin_map();
    let infos = Shaper::new(&map).shape("éAb");
    assert_eq!(infos.len(), 3);
    assert_eq!(infos[0].glyph_id, 0);
    assert_eq!(infos[1].glyph_id, 10);
    assert_eq!((infos[2].glyph_id, infos[2].cluster), (41, 2));
}
