use vstd::prelude::*;
use crate::math::bezier::{BezierTypes, spec_control_points};
use crate::math::contour::Contour;
use crate::math::lalg::Vec2;

verus! {

/// The control points of a curve of `order` with its degenerate control points folded
/// away, and the order that is left: a cubic whose inner points each sit on an end, or a
/// quadratic whose middle point sits on an end, is a straight line, its second point
/// moved to the end; a line whose ends meet is a point.
pub open spec fn simplified(p: Seq<Vec2>, order: int) -> (Seq<Vec2>, int) {
    if order == 3 {
        if (p[1] == p[0] || p[1] == p[3]) && (p[2] == p[0] || p[2] == p[3]) {
            (p.update(1, p[3]), 1)
        } else {
            (p, 3)
        }
    } else if order == 2 {
        if p[1] == p[0] || p[1] == p[2] {
            (p.update(1, p[2]), 1)
        } else {
            (p, 2)
        }
    } else if order == 1 {
        if p[0] == p[1] { (p, 0) } else { (p, 1) }
    } else {
        (p, order)
    }
}

/// Folds away the degenerate control points of a curve of `order` and gives the order
/// that is left.
pub fn simplify_degenerate_curve(control_points: &mut Vec<Vec2>, order: usize) -> (r: usize)
    requires
        1 <= order <= 3 ==> order < old(control_points)@.len(),
    ensures
        (final(control_points)@, r as int) == simplified(old(control_points)@, order as int),
{
    if order == 3 {
        if (control_points[1] == control_points[0] || control_points[1] == control_points[3])
            && (control_points[2] == control_points[0] || control_points[2] == control_points[3]) {
            let end = control_points[3];
            control_points.set(1, end);
            1
        } else {
            3
        }
    } else if order == 2 {
        if control_points[1] == control_points[0] || control_points[1] == control_points[2] {
            let end = control_points[2];
            control_points.set(1, end);
            1
        } else {
            2
        }
    } else if order == 1 {
        if control_points[0] == control_points[1] {
            0
        } else {
            1
        }
    } else {
        order
    }
}

/// The points that the ordering of two curves meeting at a corner is read from: the
/// simplified points of `a` up to the corner, then those of `b` after it, with the
/// corner's index and the orders left before and after it. `None` when `a` does not end
/// where `b` starts.
pub open spec fn ordering_points_spec(a: BezierTypes, b: BezierTypes) -> Option<(Seq<Vec2>, int, int, int)> {
    let pa = spec_control_points(a);
    let pb = spec_control_points(b);
    let ao = a.degree_spec();
    let bo = b.degree_spec();
    if pa[ao] != pb[0] {
        None
    } else {
        let (sa, a_order) = simplified(pa, ao);
        let (sb, b_order) = simplified(pb, bo);
        Some((sa.take(a_order + 1) + sb.subrange(1, b_order + 1), a_order, a_order, b_order))
    }
}

/// The points that the ordering of the curves `a` and `b` at the corner where `a` ends
/// and `b` starts is read from, with the corner's index and the orders before and after
/// it; `None` when `a` does not end where `b` starts.
pub fn ordering_points(a: &BezierTypes, b: &BezierTypes) -> (r: Option<(Vec<Vec2>, usize, usize, usize)>)
    ensures
        match ordering_points_spec(*a, *b) {
            None => r is None,
            Some((pts, corner, before, after)) => r matches Some((v, c, x, y))
                && v@ == pts && c == corner && x == before && y == after,
        },
{
    let mut a_points = a.control_points();
    let mut b_points = b.control_points();
    let a_order = a.degree() as usize;
    let b_order = b.degree() as usize;
    if a_points[a_order] != b_points[0] {
        return None;
    }
    let a_order = simplify_degenerate_curve(&mut a_points, a_order);
    let b_order = simplify_degenerate_curve(&mut b_points, b_order);
    assert(b_order <= 3);
    let ghost sa = a_points@;
    let ghost sb = b_points@;
    let mut combined: Vec<Vec2> = Vec::new();
    let mut i: usize = 0;
    while i < a_order
        invariant
            i <= a_order,
            a_order < a_points@.len(),
            a_points@ == sa,
            combined@ == sa.take(i as int),
        decreases a_order - i,
    {
        combined.push(a_points[i]);
        i = i + 1;
        assert(combined@ =~= sa.take(i as int));
    }
    let corner_index = combined.len();
    combined.push(a_points[a_order]);
    assert(combined@ =~= sa.take(a_order as int + 1));
    let mut j: usize = 1;
    while j <= b_order
        invariant
            1 <= j <= b_order + 1,
            b_order < b_points@.len(),
            b_order <= 3,
            b_points@ == sb,
            combined@ == sa.take(a_order as int + 1) + sb.subrange(1, j as int),
        decreases b_order + 1 - j,
    {
        combined.push(b_points[j]);
        j = j + 1;
        assert(combined@ =~= sa.take(a_order as int + 1) + sb.subrange(1, j as int));
    }
    Some((combined, corner_index, a_order, b_order))
}

/// A glyph outline: its contours. Its bounds, which are floating-point, are kept by
/// the application around it.
#[derive(Clone, Debug)]
pub struct Shape {
    pub contours: Vec<Contour>,
}

/// The number of edges of the first `n` contours.
pub open spec fn edges_upto(contours: Seq<Contour>, n: int) -> int
    decreases n,
{
    if n <= 0 { 0 } else { edges_upto(contours, n - 1) + contours[n - 1].edges@.len() }
}

/// The edge counts only grow with the contours counted.
pub proof fn lemma_edges_upto_mono(contours: Seq<Contour>, i: int, n: int)
    requires
        0 <= i <= n <= contours.len(),
    ensures
        edges_upto(contours, i) <= edges_upto(contours, n),
    decreases n - i,
{
    if i < n {
        lemma_edges_upto_mono(contours, i, n - 1);
    }
}

impl Shape {
    /// The number of edges over all contours.
    pub fn edge_count(&self) -> (r: usize)
        requires
            edges_upto(self.contours@, self.contours@.len() as int) <= usize::MAX,
        ensures
            r == edges_upto(self.contours@, self.contours@.len() as int),
    {
        let mut total: usize = 0;
        let mut i: usize = 0;
        while i < self.contours.len()
            invariant
                i <= self.contours@.len(),
                total == edges_upto(self.contours@, i as int),
                edges_upto(self.contours@, self.contours@.len() as int) <= usize::MAX,
            decreases self.contours@.len() - i,
        {
            proof {
                lemma_edges_upto_mono(self.contours@, i as int + 1, self.contours@.len() as int);
            }
            total = total + self.contours[i].edges.len();
            i = i + 1;
        }
        total
    }
}

} // verus!
