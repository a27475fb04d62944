use ttfkit::math::bezier::{BezierTypes, CubicBezier, EdgeColor, LinearBezier, QuadraticBezier};
use ttfkit::math::calc::{median, Degree};
use ttfkit::math::contour::Contour;
use ttfkit::math::lalg::Vec2;
use ttfkit::math::shape::{ordering_points, simplify_degenerate_curve, Shape};

fn v(x: i32, y: i32) -> Vec2 {
    Vec2 { x, y }
}

fn line(a: Vec2, b: Vec2) -> BezierTypes {
    BezierTypes::Linear(LinearBezier::new(a, b, EdgeColor::WHITE))
}

fn square() -> Contour {
    let mut c = Contour { edges: Vec::new() };
    c.add_edge(line(v(0, 0), v(10, 0)));
    c.add_edge(line(v(10, 0), v(10, 10)));
    c.add_edge(line(v(10, 10), v(0, 10)));
    c.add_edge(line(v(0, 10), v(0, 0)));
    c
}

#[test]
fn negate_vector() {
    let vec = Vec2 { x: 1, y: 1 };
    let negated_vector = -vec;
    assert_eq!(negated_vector, Vec2 { x: -1, y: -1 });
}

#[test]
fn negate_twice_gives_back_the_vector() {
    let a = v(-7, 12);
    assert_eq!(-(-a), a);
}

#[test]
fn midpoint_rounds_down() {
    assert_eq!(v(1, 2).mid(v(4, -3)), v(2, -1));
}

#[test]
fn counter_clockwise_square_winds_negative() {
    assert_eq!(square().winding(), -1);
}

#[test]
fn reversed_square_winds_the_other_way() {
    let mut c = square();
    c.reverse();
    assert_eq!(c.winding(), 1);
    assert_eq!(c.edges.len(), 4);
    assert_eq!(c.edges[0].control_points(), vec![v(0, 0), v(0, 10)]);
}

#[test]
fn reversing_twice_restores_the_contour() {
    let mut c = square();
    c.add_edge(BezierTypes::Quadratic(QuadraticBezier::new(v(0, 0), v(5, 5), v(9, 1), EdgeColor::RED)));
    let before: Vec<Vec<Vec2>> = c.edges.iter().map(|e| e.control_points()).collect();
    c.reverse();
    c.reverse();
    let after: Vec<Vec<Vec2>> = c.edges.iter().map(|e| e.control_points()).collect();
    assert_eq!(before, after);
}

#[test]
fn empty_contour_has_no_winding() {
    let c = Contour { edges: Vec::new() };
    assert_eq!(c.winding(), 0);
}

#[test]
fn single_curve_winding_reads_three_points() {
    // Points at 0, 1/3 and 2/3 of (0,0) (30,30) (60,0): (0,0), (20,40/3), (40,40/3),
    // which turn clockwise in y-up axes.
    let mut c = Contour { edges: Vec::new() };
    c.add_edge(BezierTypes::Quadratic(QuadraticBezier::new(v(0, 0), v(30, 30), v(60, 0), EdgeColor::WHITE)));
    assert_eq!(c.winding(), 1);
    c.reverse();
    assert_eq!(c.winding(), -1);
}

#[test]
fn two_edge_winding_reads_four_points() {
    // An eye shape: a curve bulging down from (0,0) to (20,0), a curve bulging up back.
    let mut c = Contour { edges: Vec::new() };
    c.add_edge(BezierTypes::Quadratic(QuadraticBezier::new(v(0, 0), v(10, -10), v(20, 0), EdgeColor::WHITE)));
    c.add_edge(BezierTypes::Quadratic(QuadraticBezier::new(v(20, 0), v(10, 10), v(0, 0), EdgeColor::WHITE)));
    assert_eq!(c.winding(), -1);
}

#[test]
fn degree_names() {
    assert_eq!(Degree::from(1), Degree::Constant);
    assert_eq!(Degree::from(4), Degree::Cubic);
    assert_eq!(Degree::from(5), Degree::Quintic);
    assert_eq!(Degree::from(6), Degree::Quartic);
    assert_eq!(Degree::from(0), Degree::Invalid);
    assert_eq!(Degree::from(7), Degree::Invalid);
}

#[test]
fn median_of_three() {
    assert_eq!(median(3, 1, 2), 2);
    assert_eq!(median(1, 2, 3), 2);
    assert_eq!(median(2, 3, 1), 2);
    assert_eq!(median(2u8, 2, 1), 2);
    assert_eq!(median(7i64, 7, 7), 7);
}

#[test]
fn degenerate_cubic_becomes_a_line() {
    let mut p = vec![v(0, 0), v(0, 0), v(5, 5), v(5, 5)];
    assert_eq!(simplify_degenerate_curve(&mut p, 3), 1);
    assert_eq!(p, vec![v(0, 0), v(5, 5), v(5, 5), v(5, 5)]);
    let mut q = vec![v(0, 0), v(1, 0), v(5, 5), v(5, 6)];
    assert_eq!(simplify_degenerate_curve(&mut q, 3), 3);
    let mut r = vec![v(0, 0), v(3, 3), v(3, 3)];
    assert_eq!(simplify_degenerate_curve(&mut r, 2), 1);
    let mut s = vec![v(2, 2), v(2, 2)];
    assert_eq!(simplify_degenerate_curve(&mut s, 1), 0);
}

#[test]
fn ordering_points_join_two_curves() {
    let a = line(v(0, 0), v(1, 0));
    let b = BezierTypes::Cubic(CubicBezier::new(v(1, 0), v(2, 0), v(3, 1), v(4, 4), EdgeColor::WHITE));
    let (pts, corner, before, after) = ordering_points(&a, &b).unwrap();
    assert_eq!(pts, vec![v(0, 0), v(1, 0), v(2, 0), v(3, 1), v(4, 4)]);
    assert_eq!((corner, before, after), (1, 1, 3));
    let c = line(v(9, 9), v(1, 1));
    assert!(ordering_points(&a, &c).is_none());
}

#[test]
fn shape_counts_edges() {
    let shape = Shape { contours: vec![square(), Contour { edges: Vec::new() }, square()] };
    assert_eq!(shape.edge_count(), 8);
}

#[test]
fn edge_color_bits_round_trip() {
    for bits in 0u8..8 {
        assert_eq!(EdgeColor::from_u8(bits).bits(), bits);
    }
    assert_eq!(EdgeColor::from(9u8).bits(), 0);
    assert_eq!(EdgeColor::from_u8(3).bits(), EdgeColor::YELLOW.bits());
}

#[test]
fn reversing_an_edge_reverses_its_points() {
    let mut e = BezierTypes::Cubic(CubicBezier::new(v(0, 0), v(1, 2), v(3, 4), v(5, 6), EdgeColor::CYAN));
    e.reverse();
    assert_eq!(e.control_points(), vec![v(5, 6), v(3, 4), v(1, 2), v(0, 0)]);
    assert_eq!(e.degree(), 3);
    assert_eq!(e.color().bits(), EdgeColor::CYAN.bits());
}

#[test]
fn edge_colors_show_their_names() {
    assert_eq!(EdgeColor::RED.name(), "RED");
    assert_eq!(EdgeColor::from_u8(6).name(), "CYAN");
    assert_eq!(EdgeColor::from_u8(9).name(), "BLACK");
    assert_eq!(EdgeColor::WHITE.name(), "WHITE");
}

#[test]
fn closed_curved_triangle_reverses_its_winding() {
    let mut c = Contour { edges: Vec::new() };
    c.add_edge(BezierTypes::Quadratic(QuadraticBezier::new(v(0, 0), v(20, -8), v(40, 0), EdgeColor::RED)));
    c.add_edge(line(v(40, 0), v(20, 30)));
    c.add_edge(BezierTypes::Cubic(CubicBezier::new(v(20, 30), v(12, 20), v(4, 10), v(0, 0), EdgeColor::BLUE)));
    let before = c.winding();
    assert_ne!(before, 0);
    c.reverse();
    assert_eq!(c.winding(), -before);
}

#[test]
fn open_path_can_keep_its_winding_when_reversed() {
    // The last segment does not come back to the start, so the start points of the
    // reversed path do not trace the same polygon backwards.
    let mut c = Contour { edges: Vec::new() };
    c.add_edge(line(v(0, 0), v(10, 0)));
    c.add_edge(line(v(10, 0), v(10, 10)));
    c.add_edge(line(v(20, 20), v(30, 0)));
    let before = c.winding();
    c.reverse();
    assert_eq!(c.winding(), before);
}
