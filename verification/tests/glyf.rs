use std::collections::HashMap;
use ttfkit::cursor::Cursor;
use ttfkit::error::Error;
use ttfkit::math::lalg::Vec2;
use ttfkit::table::glyf::{curve_from_coords, Glyf, Glyph, Transform};
use ttfkit::table::{TableDirectory, TableRecord, GLYF};

fn push_word(out: &mut Vec<u8>, w: u16) {
    out.push((w >> 8) as u8);
    out.push((w & 0xff) as u8);
}

/// A glyph table at offset 0 holding one triangle (0,0) (100,0) (0,100), every point on
/// the curve and every coordinate a word.
fn triangle() -> Vec<u8> {
    let mut d = Vec::new();
    for w in [1u16, 0, 0, 100, 100, 2, 0] {
        push_word(&mut d, w);
    }
    d.extend_from_slice(&[1, 1, 1]);
    for w in [0u16, 100, 0xff9c, 0, 0, 100] {
        push_word(&mut d, w);
    }
    d
}

fn directory() -> TableDirectory {
    let mut t: TableDirectory = HashMap::new();
    t.insert(GLYF, TableRecord { checksum: 0, table_offset: 0, length: 0 });
    t
}

#[test]
fn simple_glyph_becomes_edges_in_quarter_units() {
    let data = triangle();
    let mut glyf = Glyf::new(vec![0, data.len() as u32], &directory());
    assert!(glyf.get_glyf(0).is_none());
    let mut cursor = Cursor::set(&data, 0);
    glyf.parse_glyf_block(0, &mut cursor).unwrap();
    let g = glyf.get_glyf(0).unwrap();
    assert_eq!(g.get_header().contour_count, 1);
    assert_eq!(g.get_header().x_max, 100);
    match &**g {
        Glyph::Simple(s) => {
            assert_eq!(s.contours.len(), 1);
            let edges = &s.contours[0];
            // The edges join consecutive points; no edge closes the contour.
            assert_eq!(edges.len(), 2);
            assert_eq!(edges[0].control_points(), vec![Vec2 { x: 0, y: 0 }, Vec2 { x: 400, y: 0 }]);
            assert_eq!(edges[1].control_points(), vec![Vec2 { x: 400, y: 0 }, Vec2 { x: 0, y: 400 }]);
        },
        _ => panic!("expected a simple glyph"),
    }
    // A second request finds the glyph already parsed and reads nothing.
    let mut again = Cursor::set(&data, 3);
    glyf.parse_glyf_block(0, &mut again).unwrap();
    assert_eq!(again.position(), 3);
    assert!(glyf.get_glyph(0).is_some());
}

#[test]
fn end_point_past_the_points_is_refused() {
    let mut data = triangle();
    data[11] = 9;
    let mut glyf = Glyf::new(vec![0, data.len() as u32], &directory());
    let mut cursor = Cursor::set(&data, 0);
    let r = glyf.parse_glyf_block(0, &mut cursor);
    assert!(r.is_err());
    assert!(glyf.get_glyf(0).is_none());
}

#[test]
fn off_curve_points_make_quadratic_edges() {
    // (0,0) on, (50,100) off, (100,0) on: one curve.
    let x = [0i16, 50, 100];
    let y = [0i16, 100, 0];
    let flags = [1u8, 0, 1];
    let edges = curve_from_coords(0, 2, &x, &y, &flags).unwrap();
    assert_eq!(edges.len(), 1);
    assert_eq!(edges[0].degree(), 2);
    assert_eq!(edges[0].control_points(), vec![Vec2 { x: 0, y: 0 }, Vec2 { x: 200, y: 400 }, Vec2 { x: 400, y: 0 }]);
    // Two off-curve points in a row meet at the point halfway between them.
    let x = [0i16, 10, 30, 40];
    let y = [0i16, 10, 10, 0];
    let flags = [1u8, 0, 0, 1];
    let edges = curve_from_coords(0, 3, &x, &y, &flags).unwrap();
    assert_eq!(edges.len(), 2);
    assert_eq!(edges[0].control_points()[2], Vec2 { x: 80, y: 40 });
}

#[test]
fn identity_transform() {
    let t = Transform::identity();
    assert_eq!(t.a.0, 0x4000);
    assert_eq!(t.b.0, 0);
    assert_eq!((t.dx, t.dy), (0, 0));
}

#[test]
fn composite_glyph_places_the_triangle() {
    // Glyph 0 is the triangle; glyph 1 places it once, with byte arguments 3 and 4.
    let mut data = triangle();
    let second = data.len() as u32;
    for w in [0xffffu16, 0, 0, 100, 100, 0, 0] {
        push_word(&mut data, w);
    }
    data.extend_from_slice(&[3, 4]);
    let mut glyf = Glyf::new(vec![0, second, data.len() as u32], &directory());
    let mut cursor = Cursor::set(&data, 0);
    glyf.parse_glyf_block(1, &mut cursor).unwrap();
    assert!(glyf.get_glyf(0).is_some());
    match &**glyf.get_glyf(1).unwrap() {
        Glyph::Composite(c) => {
            assert_eq!(c.components.len(), 1);
            assert_eq!(c.components[0].gid, 0);
            assert_eq!(c.header.contour_count, -1);
        },
        _ => panic!("expected a composite glyph"),
    }
}

#[test]
fn glyph_that_places_itself_is_refused() {
    let mut data = Vec::new();
    for w in [0xffffu16, 0, 0, 10, 10, 0, 0] {
        push_word(&mut data, w);
    }
    data.extend_from_slice(&[0, 0]);
    let mut glyf = Glyf::new(vec![0, data.len() as u32], &directory());
    let mut cursor = Cursor::set(&data, 0);
    assert!(matches!(glyf.parse_glyf_block(0, &mut cursor), Err(Error::InvalidFormat("component nesting"))));
    assert!(glyf.get_glyf(0).is_none());
}
