use std::borrow::Borrow;
use std::collections::HashMap;
use ttfkit::cursor::Cursor;
use ttfkit::error::{Error, ParseError, ReadError};
use ttfkit::table::cmap::format4::parse_format4;
use ttfkit::table::cmap::{lookup, parse_cmap, select_best_cmap, CMapSubtable};
use ttfkit::table::head::Head;
use ttfkit::table::hhea::Hhea;
use ttfkit::table::hmtx::Hmtx;
use ttfkit::table::kern::Kern;
use ttfkit::table::loca::parse_loca;
use ttfkit::table::maxp::Maxp;
use ttfkit::table::{find_table, TableDirectory, TableRecord, CMAP, HEAD, HHEA, HMTX, KERN, LOCA, MAXP};
use ttfkit::tags::{self, Tag};

fn words(ws: &[u16]) -> Vec<u8> {
    let mut out = Vec::new();
    for w in ws {
        out.push((w >> 8) as u8);
        out.push((w & 0xff) as u8);
    }
    out
}

fn dir(tag: u32, offset: usize, len: usize) -> TableDirectory {
    let mut t: TableDirectory = HashMap::new();
    t.insert(tag, TableRecord { checksum: 0, table_offset: offset, length: len });
    t
}

#[test]
fn cursor_reads_big_endian() {
    let data = [0x12u8, 0x34, 0xff, 0xfe, 0x00, 0x01, 0x00, 0x02];
    let mut c = Cursor::set(&data, 0);
    assert_eq!(c.read_u16().unwrap(), 0x1234);
    assert_eq!(c.read_i16().unwrap(), -2);
    assert_eq!(c.read_u32().unwrap(), 0x0001_0002);
    assert_eq!(c.position(), 8);
    assert!(matches!(c.read_u8(), Err(Error::ReadError(ReadError::UnexpectedEof))));
    assert_eq!(c.position(), 8);
    assert!(c.seek(2).is_ok());
    assert_eq!(c.read_u8().unwrap(), 0xff);
    assert!(matches!(c.seek(9), Err(Error::ReadError(ReadError::OutOfBounds))));
    assert_eq!(c.position(), 3);
    assert_eq!(c.size(), 8);
}

#[test]
fn cursor_reads_arrays() {
    let data = words(&[1, 2, 0xffff]);
    let mut c = Cursor::set(&data, 0);
    assert_eq!(c.read_u16_array(3).unwrap(), vec![1, 2, 0xffff]);
    let mut c = Cursor::set(&data, 0);
    assert_eq!(c.read_i16_array(3).unwrap(), vec![1, 2, -1]);
    let mut c = Cursor::set(&data, 2);
    assert!(c.read_u16_array(3).is_err());
    assert_eq!(c.position(), 2);
}

#[test]
fn tags_round_trip() {
    let t = Tag::from_u32(0x44464C54);
    assert_eq!(t.as_bytes(), *b"DFLT");
    assert_eq!(Tag::from_bytes(*b"liga").to_u32(), 0x6c696761);
    assert!(Tag::from(tags::script::LATIN).is_valid_script());
    assert!(Tag::from(tags::feature::LIGA).is_valid_feature());
    assert!(!Tag::from(*b"zzzz").is_valid_script());
    assert!(Tag::from(0x44464C54u32) == Tag::from(*b"DFLT"));
    assert!(Tag::from(*b"DFLT").same(&t));
}

#[test]
fn find_table_reports_missing_tables() {
    let t = dir(MAXP, 0, 0);
    assert!(find_table(&t, MAXP, "maxp").is_ok());
    assert!(matches!(find_table(&t, HEAD, "head"), Err(Error::MissingTable("head"))));
}

#[test]
fn maxp_reads_its_words() {
    let mut w = vec![1, 0, 300];
    w.extend_from_slice(&[7; 12]);
    let data = words(&w);
    let m = Maxp::parse(&data, &dir(MAXP, 0, data.len())).unwrap();
    assert_eq!((m.vers_major, m.vers_minor, m.num_glyphs, m.max_component_depth), (1, 0, 300, 7));
    assert!(matches!(Maxp::parse(&data[..20], &dir(MAXP, 0, 20)), Err(Error::ReadError(ReadError::UnexpectedEof))));
    assert!(matches!(Maxp::parse(&data, &HashMap::new()), Err(Error::MissingTable("maxp"))));
}

#[test]
fn hhea_skips_its_reserved_words() {
    let mut w: Vec<u16> = vec![1, 0, 800, 0xff38, 0, 1000, 0, 0, 900, 1, 0, 0];
    w.extend_from_slice(&[0xaaaa; 4]);
    w.extend_from_slice(&[0, 12]);
    let data = words(&w);
    let h = Hhea::parse(&data, &dir(HHEA, 0, data.len())).unwrap();
    assert_eq!((h.ascent, h.descent, h.advance_width_max), (800, -200, 1000));
    assert_eq!(h.number_of_long_hor_metrics, 12);
}

#[test]
fn head_checks_its_magic_number() {
    let mut w: Vec<u16> = vec![1, 0, 0x8000, 0x0002, 0, 0, 0x5F0F, 0x3CF5, 0, 2048];
    w.extend_from_slice(&[0; 17]);
    let data = words(&w);
    let h = Head::parse(&data, &dir(HEAD, 0, data.len())).unwrap();
    assert_eq!(h.units_per_em, 2048);
    assert_eq!(h.font_revision, 0x0002_8000);
    let mut bad = data.clone();
    bad[12] = 0;
    assert!(matches!(Head::parse(&bad, &dir(HEAD, 0, bad.len())), Err(Error::ParseError(ParseError::MagicNumber))));
}

#[test]
fn hmtx_shares_the_last_advance() {
    let data = words(&[500, 10, 600, 20, 30, 40]);
    let h = Hmtx::parse(&data, &dir(HMTX, 0, data.len()), 2, 4).unwrap();
    let m = h.metric_for_glyph(1);
    assert_eq!((m.advance_width, m.left_side_bearing), (600, 20));
    let m = h.metric_for_glyph(3);
    assert_eq!((m.advance_width, m.left_side_bearing), (600, 40));
    assert!(Hmtx::parse(&data, &dir(HMTX, 0, data.len()), 2, 5).is_err());
}

#[test]
fn loca_in_both_formats() {
    let data = words(&[0, 10, 25, 0]);
    assert_eq!(parse_loca(&data, &dir(LOCA, 0, 8), 6, 0).unwrap(), vec![0, 20, 50]);
    assert_eq!(parse_loca(&data, &dir(LOCA, 0, 8), 8, 1).unwrap(), vec![10, 0x19_0000]);
    assert!(matches!(parse_loca(&data, &dir(LOCA, 0, 8), 8, 2), Err(Error::InvalidFormat(_))));
}

#[test]
fn kern_reads_microsoft_pairs() {
    // version 0, one subtable: version 0, length 20, coverage 0 (its low byte is read as
    // the format); one pair 4 5 -> -30.
    let data = words(&[0, 1, 0, 20, 0, 1, 0, 0, 0, 4, 5, 0xffe2]);
    match Kern::parse(&data, &dir(KERN, 0, data.len())).unwrap() {
        Kern::Microsoft { version, subtables } => {
            assert_eq!(version, 0);
            assert_eq!(subtables.len(), 1);
            assert_eq!(subtables[0].pairs[0].value, -30);
        },
        _ => panic!("expected the Microsoft layout"),
    }
    // A low coverage byte other than 0 names another format, which is skipped.
    let data = words(&[0, 1, 0, 20, 1, 1, 0, 0, 0, 4, 5, 0xffe2]);
    match Kern::parse(&data, &dir(KERN, 0, data.len())).unwrap() {
        Kern::Microsoft { subtables, .. } => assert_eq!(subtables.len(), 0),
        _ => panic!("expected the Microsoft layout"),
    }
    let short = words(&[0, 1, 0, 4, 1]);
    assert!(matches!(Kern::parse(&short, &dir(KERN, 0, short.len())), Err(Error::InvalidFormat("kern subtable length"))));
}

#[test]
fn cmap_format12_maps_ranges() {
    let data = words(&[0, 1, 3, 10, 0, 12, 12, 0, 0, 28, 0, 0, 0, 1, 0, 0x41, 0, 0x5a, 0, 1]);
    let groups = parse_cmap(&data, &dir(CMAP, 0, data.len())).unwrap();
    assert_eq!(groups.len(), 1);
    assert_eq!(lookup(&groups, 0x43), Some(3));
    assert_eq!(lookup(&groups, 0x61), None);
}

#[test]
fn cmap_without_a_known_subtable() {
    let data = words(&[0, 1, 1, 0, 0, 12, 6, 0]);
    assert!(matches!(parse_cmap(&data, &dir(CMAP, 0, data.len())), Err(Error::ParseError(ParseError::InvalidCmap))));
}

#[test]
fn cmap_format4_maps_segments() {
    let data = words(&[4, 32, 0, 4, 4, 1, 0, 0x5a, 0xffff, 0, 0x41, 0xffff, 0xffc0, 1, 0, 0]);
    let groups = parse_format4(&mut Cursor::set(&data, 0)).unwrap();
    assert_eq!(lookup(&groups, 0x41), Some(1));
    assert_eq!(lookup(&groups, 0x5a), Some(26));
    assert_eq!(lookup(&groups, 0x30), None);
    let short = words(&[4, 20, 0, 4, 4, 1, 0, 0x5a, 0xffff, 0, 0x41, 0xffff, 0xffc0, 1, 0, 0]);
    assert!(matches!(parse_format4(&mut Cursor::set(&short, 0)), Err(Error::InvalidFormat("cmap format 4 length"))));
}

#[test]
fn best_cmap_prefers_full_repertoire() {
    let subs = [
        CMapSubtable { platform_id: 3, encoding_id: 1, offset: 0, format: 4 },
        CMapSubtable { platform_id: 3, encoding_id: 10, offset: 0, format: 12 },
    ];
    assert_eq!(select_best_cmap(&subs).unwrap().encoding_id, 10);
    assert!(select_best_cmap(&subs[..1]).is_some());
    assert!(select_best_cmap(&[]).is_none());
}

#[test]
fn tag_lends_its_bytes() {
    let t = Tag::from(*b"GSUB");
    let all: &[u8] = t.as_ref();
    assert_eq!(all, b"GSUB");
    let four: &[u8; 4] = t.as_ref();
    assert_eq!(four, b"GSUB");
    let lent: &[u8; 4] = t.borrow();
    assert_eq!(lent, b"GSUB");
}
