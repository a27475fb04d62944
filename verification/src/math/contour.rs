use vstd::prelude::*;
use crate::math::bezier::{BezierTypes, spec_control_points, spec_color};
use crate::math::lalg::Vec2;

verus! {

/// A closed outline made of edges.
#[derive(Clone, Debug)]
pub struct Contour {
    pub edges: Vec<BezierTypes>,
}

/// Twice the signed area of the trapezoid under the segment from `a` to `b`.
pub open spec fn shoelace(a: (int, int), b: (int, int)) -> int {
    (b.0 - a.0) * (a.1 + b.1)
}

/// -1, 0 or 1 as `v` is negative, zero or positive.
pub open spec fn sign(v: int) -> int {
    if v > 0 { 1 } else if v < 0 { -1 } else { 0 }
}

/// The weight of control point `i` of an edge of degree `d` at parameter `k / n`,
/// scaled by `n` cubed so that every weight is an integer.
pub open spec fn weight(d: int, i: int, k: int, n: int) -> int {
    if d == 1 {
        if i == 0 { (n - k) * n * n } else { k * n * n }
    } else if d == 2 {
        if i == 0 { (n - k) * (n - k) * n } else if i == 1 { 2 * k * (n - k) * n } else { k * k * n }
    } else {
        if i == 0 {
            (n - k) * (n - k) * (n - k)
        } else if i == 1 {
            3 * k * (n - k) * (n - k)
        } else if i == 2 {
            3 * k * k * (n - k)
        } else {
            k * k * k
        }
    }
}

/// The x coordinate of `v` when `xs`, else its y coordinate.
pub open spec fn coord(v: Vec2, xs: bool) -> int {
    if xs { v.x as int } else { v.y as int }
}

/// A coordinate (x when `xs`) of the point of the edge with control points `p` at
/// parameter `k / n`, scaled by `n` cubed.
pub open spec fn scaled_coord(p: Seq<Vec2>, xs: bool, k: int, n: int) -> int {
    let d = p.len() - 1;
    if d == 1 {
        coord(p[0], xs) * weight(1, 0, k, n) + coord(p[1], xs) * weight(1, 1, k, n)
    } else if d == 2 {
        coord(p[0], xs) * weight(2, 0, k, n) + coord(p[1], xs) * weight(2, 1, k, n)
            + coord(p[2], xs) * weight(2, 2, k, n)
    } else {
        coord(p[0], xs) * weight(3, 0, k, n) + coord(p[1], xs) * weight(3, 1, k, n)
            + coord(p[2], xs) * weight(3, 2, k, n) + coord(p[3], xs) * weight(3, 3, k, n)
    }
}

/// The point of edge `e` at parameter `k / n`, scaled by `n` cubed.
pub open spec fn scaled_point(e: BezierTypes, k: int, n: int) -> (int, int) {
    let p = spec_control_points(e);
    (scaled_coord(p, true, k, n), scaled_coord(p, false, k, n))
}

/// The start point of edge `e`.
pub open spec fn start_point(e: BezierTypes) -> (int, int) {
    let p = spec_control_points(e)[0];
    (p.x as int, p.y as int)
}

/// The shoelace sum over the first `i` start points, each taken with the start point
/// before it, the first with the last.
pub open spec fn polygon_sum(edges: Seq<BezierTypes>, i: int) -> int
    decreases i,
{
    if i <= 0 {
        0
    } else {
        let prev = if i == 1 { start_point(edges.last()) } else { start_point(edges[i - 2]) };
        polygon_sum(edges, i - 1) + shoelace(prev, start_point(edges[i - 1]))
    }
}

/// Twice the signed area that the winding is read from, scaled by a positive factor: for
/// one edge, the triangle through its points at 0, 1/3 and 2/3; for two edges, the
/// quadrilateral through their points at 0 and 1/2; else the polygon of the start points.
pub open spec fn contour_area(edges: Seq<BezierTypes>) -> int {
    if edges.len() == 0 {
        0
    } else if edges.len() == 1 {
        let a = scaled_point(edges[0], 0, 3);
        let b = scaled_point(edges[0], 1, 3);
        let c = scaled_point(edges[0], 2, 3);
        shoelace(a, b) + shoelace(b, c) + shoelace(c, a)
    } else if edges.len() == 2 {
        let a = scaled_point(edges[0], 0, 2);
        let b = scaled_point(edges[0], 1, 2);
        let c = scaled_point(edges[1], 0, 2);
        let d = scaled_point(edges[1], 1, 2);
        shoelace(a, b) + shoelace(b, c) + shoelace(c, d) + shoelace(d, a)
    } else {
        polygon_sum(edges, edges.len() as int)
    }
}

/// The end point of edge `e`.
pub open spec fn end_point(e: BezierTypes) -> (int, int) {
    let p = spec_control_points(e).last();
    (p.x as int, p.y as int)
}

/// Whether each edge ends where the next one starts, and the last where the first starts.
pub open spec fn closed(edges: Seq<BezierTypes>) -> bool {
    &&& forall|i: int| 0 <= i < edges.len() - 1 ==> end_point(#[trigger] edges[i]) == start_point(edges[i + 1])
    &&& edges.len() > 0 ==> end_point(edges.last()) == start_point(edges[0])
}

/// The start points of the edges, in order.
pub open spec fn start_points(edges: Seq<BezierTypes>) -> Seq<(int, int)> {
    Seq::new(edges.len(), |i: int| start_point(edges[i]))
}

/// The shoelace sum along the open chain of points `s`, each taken with the one before.
pub open spec fn chain(s: Seq<(int, int)>) -> int
    decreases s.len(),
{
    if s.len() <= 1 {
        0
    } else {
        chain(s.drop_last()) + shoelace(s[s.len() - 2], s.last())
    }
}

/// Going the other way along a segment negates its shoelace term.
pub proof fn lemma_shoelace_swap(a: (int, int), b: (int, int))
    ensures
        shoelace(b, a) == -shoelace(a, b),
{
    assert((a.0 - b.0) * (b.1 + a.1) == -((b.0 - a.0) * (a.1 + b.1))) by (nonlinear_arith);
}

/// The chain sum of a point put before a chain adds its segment to the first point.
pub proof fn lemma_chain_prepend(x: (int, int), t: Seq<(int, int)>)
    requires
        t.len() >= 1,
    ensures
        chain(seq![x] + t) == shoelace(x, t[0]) + chain(t),
    decreases t.len(),
{
    let u = seq![x] + t;
    if t.len() == 1 {
        assert(u.drop_last() =~= seq![x]);
        assert(chain(seq![x]) == 0);
        assert(u[u.len() - 2] == x && u.last() == t[0]);
    } else {
        lemma_chain_prepend(x, t.drop_last());
        assert(u.drop_last() =~= seq![x] + t.drop_last());
        assert(t.drop_last()[0] == t[0]);
        assert(u[u.len() - 2] == t[t.len() - 2] && u.last() == t.last());
    }
}

/// The chain sum of the points in reverse order is the negated chain sum.
pub proof fn lemma_chain_reverse(s: Seq<(int, int)>)
    ensures
        chain(s.reverse()) == -chain(s),
    decreases s.len(),
{
    if s.len() >= 2 {
        let t = s.drop_last();
        lemma_chain_reverse(t);
        assert(s.reverse() =~= seq![s.last()] + t.reverse());
        lemma_chain_prepend(s.last(), t.reverse());
        lemma_shoelace_swap(s[s.len() - 2], s.last());
    }
}

/// The polygon sum over the first `i` start points is the segment from the last start
/// point to the first, plus the chain sum over those points.
pub proof fn lemma_polygon_chain(edges: Seq<BezierTypes>, i: int)
    requires
        1 <= i <= edges.len(),
    ensures
        polygon_sum(edges, i) == shoelace(start_point(edges.last()), start_point(edges[0]))
            + chain(start_points(edges).take(i)),
    decreases i,
{
    let s = start_points(edges);
    if i == 1 {
        assert(chain(s.take(1)) == 0);
        assert(polygon_sum(edges, 0) == 0);
    } else {
        lemma_polygon_chain(edges, i - 1);
        let t = s.take(i);
        assert(t.drop_last() =~= s.take(i - 1));
        assert(t[t.len() - 2] == start_point(edges[i - 2]) && t.last() == start_point(edges[i - 1]));
        assert(chain(t) == chain(s.take(i - 1)) + shoelace(start_point(edges[i - 2]), start_point(edges[i - 1])));
    }
}

/// The weights of a curve read backwards are the weights read forwards from the
/// other end.
pub proof fn lemma_weight_sym(d: int, i: int, k: int, n: int)
    requires
        1 <= d <= 3,
        0 <= i <= d,
    ensures
        weight(d, d - i, n - k, n) == weight(d, i, k, n),
{
    let m = n - k;
    assert(n - m == k);
    if d == 2 && i == 1 {
        assert(2 * m * (n - m) * n == 2 * k * (n - k) * n) by (nonlinear_arith)
            requires m == n - k, n - m == k;
    } else if d == 3 && i == 1 {
        assert(3 * m * m * (n - m) == 3 * k * (n - k) * (n - k)) by (nonlinear_arith)
            requires m == n - k, n - m == k;
    } else if d == 3 && i == 2 {
        assert(3 * m * (n - m) * (n - m) == 3 * k * k * (n - k)) by (nonlinear_arith)
            requires m == n - k, n - m == k;
    }
}

/// At parameter 0 an edge is at its start point, at parameter 1 at its end point.
pub proof fn lemma_scaled_ends(p: Seq<Vec2>, xs: bool, n: int)
    requires
        2 <= p.len() <= 4,
    ensures
        scaled_coord(p, xs, 0, n) == n * n * n * coord(p[0], xs),
        scaled_coord(p, xs, n, n) == n * n * n * coord(p.last(), xs),
{
    let d = p.len() - 1;
    assert(p.last() == p[d]);
    let z = n * n * n;
    assert(weight(d, 0, 0, n) == z) by (nonlinear_arith)
        requires 1 <= d <= 3, z == n * n * n;
    assert(weight(d, d, n, n) == z) by (nonlinear_arith)
        requires 1 <= d <= 3, z == n * n * n;
    assert(forall|i: int| 0 < i <= d ==> #[trigger] weight(d, i, 0, n) == 0) by (nonlinear_arith)
        requires 1 <= d <= 3;
    assert(forall|i: int| 0 <= i < d ==> #[trigger] weight(d, i, n, n) == 0) by (nonlinear_arith)
        requires 1 <= d <= 3;
    let c0 = coord(p[0], xs);
    let c1 = coord(p[1], xs);
    let cd = coord(p[d], xs);
    let w10 = weight(d, 1, 0, n);
    let w0n = weight(d, 0, n, n);
    assert(c0 * z == z * c0 && cd * z == z * cd) by (nonlinear_arith);
    assert(c1 * w10 == 0 && c0 * w0n == 0) by (nonlinear_arith)
        requires w10 == 0, w0n == 0;
    if d >= 2 {
        let c2 = coord(p[2], xs);
        let w20 = weight(d, 2, 0, n);
        let w1n = weight(d, 1, n, n);
        assert(c2 * w20 == 0 && c1 * w1n == 0) by (nonlinear_arith)
            requires w20 == 0, w1n == 0;
    }
    if d >= 3 {
        let c2 = coord(p[2], xs);
        let c3 = coord(p[3], xs);
        let w30 = weight(d, 3, 0, n);
        let w2n = weight(d, 2, n, n);
        assert(c3 * w30 == 0 && c2 * w2n == 0) by (nonlinear_arith)
            requires w30 == 0, w2n == 0;
    }
}

/// The coordinates of an edge run backwards at `k / n` are those of the edge at `(n - k) / n`.
pub proof fn lemma_scaled_coord_reverse(p: Seq<Vec2>, xs: bool, k: int, n: int)
    requires
        2 <= p.len() <= 4,
    ensures
        scaled_coord(p.reverse(), xs, k, n) == scaled_coord(p, xs, n - k, n),
{
    let d = p.len() - 1;
    let q = p.reverse();
    let m = n - k;
    assert(n - m == k);
    lemma_weight_sym(d, 0, m, n);
    lemma_weight_sym(d, 1, m, n);
    if d >= 2 {
        lemma_weight_sym(d, 2, m, n);
    }
    if d >= 3 {
        lemma_weight_sym(d, 3, m, n);
    }
    assert(q[0] == p[d]);
    assert(q[d] == p[0]);
    if d >= 2 {
        assert(q[1] == p[d - 1]);
        assert(q[d - 1] == p[1]);
    }
}

/// The point at parameter `k / n` of an edge run backwards is the point at
/// `(n - k) / n` of the edge; at 0 an edge is at its start point and at 1 at its end.
pub proof fn lemma_scaled_reverse(e: BezierTypes, r: BezierTypes, k: int, n: int)
    requires
        spec_control_points(r) == spec_control_points(e).reverse(),
        r.degree_spec() == e.degree_spec(),
    ensures
        scaled_point(r, k, n) == scaled_point(e, n - k, n),
        scaled_point(e, 0, n) == (n * n * n * start_point(e).0, n * n * n * start_point(e).1),
        scaled_point(e, n, n) == (n * n * n * end_point(e).0, n * n * n * end_point(e).1),
{
    let p = spec_control_points(e);
    lemma_scaled_coord_reverse(p, true, k, n);
    lemma_scaled_coord_reverse(p, false, k, n);
    lemma_scaled_ends(p, true, n);
    lemma_scaled_ends(p, false, n);
}

/// Whether `b` holds the edges of `a` in reverse order, each reversed.
pub open spec fn edges_reversed(a: Seq<BezierTypes>, b: Seq<BezierTypes>) -> bool {
    &&& b.len() == a.len()
    &&& forall|i: int| 0 <= i < b.len() ==> {
        let e = #[trigger] b[i];
        let o = a[a.len() - 1 - i];
        &&& spec_control_points(e) == spec_control_points(o).reverse()
        &&& spec_color(e) == spec_color(o)
        &&& e.degree_spec() == o.degree_spec()
    }
}

/// Two edges of the same kind with the same control points and color are the same edge.
pub proof fn lemma_edge_determined(a: BezierTypes, b: BezierTypes)
    requires
        spec_control_points(a) == spec_control_points(b),
        spec_color(a) == spec_color(b),
        a.degree_spec() == b.degree_spec(),
    ensures
        a == b,
{
    match (a, b) {
        (BezierTypes::Linear(p), BezierTypes::Linear(q)) => {
            assert(p.p[0] == q.p[0] && p.p[1] == q.p[1]);
            assert(p.p =~= q.p);
        },
        (BezierTypes::Quadratic(p), BezierTypes::Quadratic(q)) => {
            assert(p.p[0] == q.p[0] && p.p[1] == q.p[1] && p.p[2] == q.p[2]);
            assert(p.p =~= q.p);
        },
        (BezierTypes::Cubic(p), BezierTypes::Cubic(q)) => {
            assert(p.p[0] == q.p[0] && p.p[1] == q.p[1] && p.p[2] == q.p[2] && p.p[3] == q.p[3]);
            assert(p.p =~= q.p);
        },
        _ => {},
    }
}

/// Reversing a closed contour negates the area its winding is read from, so the
/// winding of the reversed contour is the opposite of the contour's.
pub proof fn lemma_reverse_winding(a: Seq<BezierTypes>, b: Seq<BezierTypes>)
    requires
        edges_reversed(a, b),
        closed(a),
    ensures
        contour_area(b) == -contour_area(a),
        sign(contour_area(b)) == -sign(contour_area(a)),
{
    let n = a.len();
    assert forall|i: int| 0 <= i < n implies #[trigger] start_point(b[i]) == end_point(a[n - 1 - i]) by {
        let q = spec_control_points(a[n - 1 - i]);
        assert(spec_control_points(b[i]) == q.reverse());
        assert(q.reverse()[0] == q.last());
    }
    if n == 1 {
        let e = a[0];
        let r = b[0];
        lemma_scaled_reverse(e, r, 0, 3);
        lemma_scaled_reverse(e, r, 1, 3);
        lemma_scaled_reverse(e, r, 2, 3);
        assert(end_point(e) == start_point(e));
        let a0 = scaled_point(e, 0, 3);
        let a1 = scaled_point(e, 1, 3);
        let a2 = scaled_point(e, 2, 3);
        assert(scaled_point(r, 0, 3) == a0);
        lemma_shoelace_swap(a0, a2);
        lemma_shoelace_swap(a2, a1);
        lemma_shoelace_swap(a1, a0);
    } else if n == 2 {
        lemma_scaled_reverse(a[1], b[0], 0, 2);
        lemma_scaled_reverse(a[1], b[0], 1, 2);
        lemma_scaled_reverse(a[0], b[1], 0, 2);
        lemma_scaled_reverse(a[0], b[1], 1, 2);
        let p = scaled_point(a[0], 0, 2);
        let s = scaled_point(a[0], 1, 2);
        let r = scaled_point(a[1], 0, 2);
        let q = scaled_point(a[1], 1, 2);
        assert(end_point(a[1]) == start_point(a[0]));
        assert(end_point(a[0]) == start_point(a[1]));
        assert(scaled_point(b[0], 0, 2) == p);
        assert(scaled_point(b[1], 0, 2) == r);
        lemma_shoelace_swap(p, q);
        lemma_shoelace_swap(q, r);
        lemma_shoelace_swap(r, s);
        lemma_shoelace_swap(s, p);
    } else if n >= 3 {
        let sa = start_points(a);
        let sb = start_points(b);
        let tail = sa.subrange(1, n as int);
        assert forall|i: int| 1 <= i < n implies #[trigger] sb[i] == tail.reverse()[i - 1] by {
            assert(end_point(a[n - 1 - i]) == start_point(a[n - i]));
        }
        assert(sb =~= seq![sa[0]] + tail.reverse());
        assert(sa =~= seq![sa[0]] + tail);
        lemma_chain_prepend(sa[0], tail.reverse());
        lemma_chain_prepend(sa[0], tail);
        lemma_chain_reverse(tail);
        lemma_polygon_chain(a, n as int);
        lemma_polygon_chain(b, n as int);
        assert(sa.take(n as int) =~= sa);
        assert(sb.take(n as int) =~= sb);
        lemma_shoelace_swap(sa[n - 1], sa[0]);
        lemma_shoelace_swap(sa[0], sa[1]);
        lemma_shoelace_swap(sa[0], sa[n - 1]);
        lemma_shoelace_swap(sa[1], sa[0]);
    }
}

/// Reversing a contour twice gives back the contour it started from.
pub proof fn lemma_reverse_twice(a: Seq<BezierTypes>, b: Seq<BezierTypes>, c: Seq<BezierTypes>)
    requires
        edges_reversed(a, b),
        edges_reversed(b, c),
    ensures
        c == a,
{
    assert forall|i: int| 0 <= i < a.len() implies c[i] == a[i] by {
        let j = b.len() - 1 - i;
        assert(b[j] == b[b.len() - 1 - i]);
        let p = spec_control_points(a[i]);
        assert(spec_control_points(c[i]) == p.reverse().reverse());
        assert(p.reverse().reverse() =~= p);
        lemma_edge_determined(c[i], a[i]);
    }
    assert(c =~= a);
}

/// The weights of the control points of an edge of degree `d` at `k / n`.
fn weights(d: u64, k: i64, n: i64) -> (w: [i64; 4])
    requires
        1 <= d <= 3,
        (n == 2 && 0 <= k <= 1) || (n == 3 && 0 <= k <= 2),
    ensures
        forall|i: int| 0 <= i <= d ==> w@[i] == weight(d as int, i, k as int, n as int) && 0 <= w@[i] <= 27,
{
    if n == 2 {
        if k == 0 {
            if d == 1 { [8, 0, 0, 0] } else if d == 2 { [8, 0, 0, 0] } else { [8, 0, 0, 0] }
        } else {
            if d == 1 { [4, 4, 0, 0] } else if d == 2 { [2, 4, 2, 0] } else { [1, 3, 3, 1] }
        }
    } else {
        if k == 0 {
            if d == 1 { [27, 0, 0, 0] } else if d == 2 { [27, 0, 0, 0] } else { [27, 0, 0, 0] }
        } else if k == 1 {
            if d == 1 { [18, 9, 0, 0] } else if d == 2 { [12, 12, 3, 0] } else { [8, 12, 6, 1] }
        } else {
            if d == 1 { [9, 18, 0, 0] } else if d == 2 { [3, 12, 12, 0] } else { [1, 6, 12, 8] }
        }
    }
}

/// `c * w` for a coordinate and a weight.
fn weigh(c: i32, w: i64) -> (r: i64)
    requires
        0 <= w <= 27,
    ensures
        r == c * w,
        -0xD_8000_0000 <= r <= 0xD_8000_0000,
{
    assert(-27 * 0x8000_0000 <= c * w <= 27 * 0x8000_0000) by (nonlinear_arith)
        requires
            0 <= w <= 27,
            -0x8000_0000 <= c < 0x8000_0000;
    c as i64 * w
}

/// The point of `e` at `k / n`, scaled by `n` cubed.
fn point_at(e: &BezierTypes, k: i64, n: i64) -> (r: (i64, i64))
    requires
        (n == 2 && 0 <= k <= 1) || (n == 3 && 0 <= k <= 2),
    ensures
        (r.0 as int, r.1 as int) == scaled_point(*e, k as int, n as int),
        -0x40_0000_0000 <= r.0 <= 0x40_0000_0000,
        -0x40_0000_0000 <= r.1 <= 0x40_0000_0000,
{
    let p = e.control_points();
    let d = e.degree();
    let w = weights(d, k, n);
    let mut x: i64 = 0;
    let mut y: i64 = 0;
    let mut i: usize = 0;
    while i <= d as usize
        invariant
            d + 1 == p@.len(),
            1 <= d <= 3,
            p@ == spec_control_points(*e),
            forall|j: int| 0 <= j <= d ==> w@[j] == weight(d as int, j, k as int, n as int) && 0 <= w@[j] <= 27,
            i <= d + 1,
            -0xD_8000_0000 * i <= x <= 0xD_8000_0000 * i,
            -0xD_8000_0000 * i <= y <= 0xD_8000_0000 * i,
            x == partial_coord(p@, true, w@, i as int),
            y == partial_coord(p@, false, w@, i as int),
        decreases d + 1 - i,
    {
        x = x + weigh(p[i].x, w[i]);
        y = y + weigh(p[i].y, w[i]);
        i = i + 1;
    }
    proof {
        reveal_with_fuel(partial_coord, 5);
    }
    (x, y)
}

/// The sum of the first `i` weighted coordinates.
pub open spec fn partial_coord(p: Seq<Vec2>, xs: bool, w: Seq<i64>, i: int) -> int
    decreases i,
{
    if i <= 0 { 0 } else { partial_coord(p, xs, w, i - 1) + coord(p[i - 1], xs) * w[i - 1] }
}

/// Twice the signed area of the trapezoid under the segment from `a` to `b`.
fn shoelace_exec(a: (i64, i64), b: (i64, i64)) -> (r: i128)
    requires
        -0x40_0000_0000 <= a.0 <= 0x40_0000_0000,
        -0x40_0000_0000 <= a.1 <= 0x40_0000_0000,
        -0x40_0000_0000 <= b.0 <= 0x40_0000_0000,
        -0x40_0000_0000 <= b.1 <= 0x40_0000_0000,
    ensures
        r == shoelace((a.0 as int, a.1 as int), (b.0 as int, b.1 as int)),
        -0x40_0000_0000_0000_0000_0000 <= r <= 0x40_0000_0000_0000_0000_0000,
{
    let dx = b.0 as i128 - a.0 as i128;
    let sy = a.1 as i128 + b.1 as i128;
    assert(-0x40_0000_0000_0000_0000_0000 <= dx * sy <= 0x40_0000_0000_0000_0000_0000) by (nonlinear_arith)
        requires
            -0x80_0000_0000 <= dx <= 0x80_0000_0000,
            -0x80_0000_0000 <= sy <= 0x80_0000_0000;
    dx * sy
}

impl Contour {
    pub fn add_edge(&mut self, edge: BezierTypes)
        ensures
            final(self).edges@ == old(self).edges@.push(edge),
    {
        self.edges.push(edge);
    }

    /// Reverses the contour: its edges in reverse order, each reversed.
    pub fn reverse(&mut self)
        ensures
            edges_reversed(old(self).edges@, final(self).edges@),
    {
        let ghost a = self.edges@;
        let mut out: Vec<BezierTypes> = Vec::new();
        let mut i: usize = self.edges.len();
        while i > 0
            invariant
                i <= self.edges@.len(),
                self.edges@ == a,
                out@.len() == a.len() - i,
                forall|j: int| 0 <= j < out@.len() ==> {
                    let e = #[trigger] out@[j];
                    let o = a[a.len() - 1 - j];
                    &&& spec_control_points(e) == spec_control_points(o).reverse()
                    &&& spec_color(e) == spec_color(o)
                    &&& e.degree_spec() == o.degree_spec()
                },
            decreases i,
        {
            i = i - 1;
            let mut e = self.edges[i];
            e.reverse();
            out.push(e);
        }
        self.edges = out;
    }

    /// The winding of the contour: the sign of the shoelace sum of the points it is read
    /// from, -1 for a contour that turns counter-clockwise in y-up axes, 1 for clockwise,
    /// 0 for one that encloses no area.
    pub fn winding(&self) -> (r: i64)
        requires
            self.edges@.len() <= 0x1_0000_0000,
        ensures
            r == sign(contour_area(self.edges@)),
    {
        let n = self.edges.len();
        if n == 0 {
            return 0;
        }
        let mut total: i128 = 0;
        if n == 1 {
            let a = point_at(&self.edges[0], 0, 3);
            let b = point_at(&self.edges[0], 1, 3);
            let c = point_at(&self.edges[0], 2, 3);
            total = shoelace_exec(a, b) + shoelace_exec(b, c) + shoelace_exec(c, a);
        } else if n == 2 {
            let a = point_at(&self.edges[0], 0, 2);
            let b = point_at(&self.edges[0], 1, 2);
            let c = point_at(&self.edges[1], 0, 2);
            let d = point_at(&self.edges[1], 1, 2);
            total = shoelace_exec(a, b) + shoelace_exec(b, c) + shoelace_exec(c, d) + shoelace_exec(d, a);
        } else {
            let last = self.edges[n - 1].control_points();
            let mut prev: (i64, i64) = (last[0].x as i64, last[0].y as i64);
            let mut i: usize = 0;
            while i < n
                invariant
                    n == self.edges@.len(),
                    n >= 3,
                    n <= 0x1_0000_0000,
                    i <= n,
                    total == polygon_sum(self.edges@, i as int),
                    -0x40_0000_0000_0000_0000_0000 * i <= total <= 0x40_0000_0000_0000_0000_0000 * i,
                    (prev.0 as int, prev.1 as int) == if i == 0 { start_point(self.edges@.last()) } else {
                        start_point(self.edges@[i - 1])
                    },
                    -0x40_0000_0000 <= prev.0 <= 0x40_0000_0000,
                    -0x40_0000_0000 <= prev.1 <= 0x40_0000_0000,
                decreases n - i,
            {
                let p = self.edges[i].control_points();
                let cur: (i64, i64) = (p[0].x as i64, p[0].y as i64);
                total = total + shoelace_exec(prev, cur);
                prev = cur;
                i = i + 1;
            }
        }
        if total > 0 {
            1
        } else if total < 0 {
            -1
        } else {
            0
        }
    }
}

} // verus!
