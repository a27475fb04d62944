use vstd::prelude::*;
use crate::cursor::{Cursor, F2Dot14, fits, u16_at, i16_at, i8_of, u16_seq};
use crate::table::{find_table, GlyphId, TableDirectory, GLYF};
use std::collections::HashMap;
use std::sync::Arc;
use crate::error::{Error, ReadError, eof, out_of_bounds};
use crate::math::bezier::{BezierTypes, EdgeColor, LinearBezier, QuadraticBezier};
use crate::math::lalg::{Vec2, spec_mid};
use crate::spec_util::prepend;

verus! {

/// Simple glyph flag: the point is on the curve.
pub const ON_CURVE_POINT: u8 = 0x01;
/// Simple glyph flag: the x delta is one byte.
pub const X_SHORT_VECTOR: u8 = 0x02;
/// Simple glyph flag: the y delta is one byte.
pub const Y_SHORT_VECTOR: u8 = 0x04;
/// Simple glyph flag: a repeat count follows.
pub const REPEAT_FLAG: u8 = 0x08;
/// Simple glyph flag: a short x delta is positive; a long one is absent (0).
pub const X_IS_SAME_OR_POSITIVE_X_SHORT_VECTOR: u8 = 0x10;
/// Simple glyph flag: a short y delta is positive; a long one is absent (0).
pub const Y_IS_SAME_OR_POSITIVE_Y_SHORT_VECTOR: u8 = 0x20;

/// A point of a glyph outline in font units, as a plane point in quarter font units.
/// Outline points are kept at four times their coordinates, so that the points implied
/// halfway between two off-curve points, and those implied between such a point and an
/// off-curve point, have exact coordinates.
pub open spec fn outline_point(x: i16, y: i16) -> Vec2 {
    Vec2 { x: (4 * x) as i32, y: (4 * y) as i32 }
}

/// The points `start..=end` of an outline with their on-curve bits.
pub open spec fn contour_points(start: int, end: int, x: Seq<i16>, y: Seq<i16>, flags: Seq<u8>) -> Seq<(Vec2, bool)> {
    Seq::new((end - start + 1) as nat, |k: int| (outline_point(x[start + k], y[start + k]), flags[start + k] & ON_CURVE_POINT != 0))
}

/// Point `i` of a closed contour, followed by the on-curve point implied halfway to the
/// next point when both are off the curve.
pub open spec fn expand_piece(pts: Seq<(Vec2, bool)>, i: int) -> Seq<(Vec2, bool)> {
    let (p0, on0) = pts[i];
    let (p1, on1) = pts[(i + 1) % pts.len() as int];
    if !on0 && !on1 {
        seq![(p0, on0), (spec_mid(p0, p1), true)]
    } else {
        seq![(p0, on0)]
    }
}

/// The pieces of the first `k` points.
pub open spec fn expand_upto(pts: Seq<(Vec2, bool)>, k: int) -> Seq<(Vec2, bool)>
    decreases k,
{
    if k <= 0 {
        Seq::empty()
    } else {
        expand_upto(pts, k - 1) + expand_piece(pts, k - 1)
    }
}

/// An expanded contour that starts off the curve gets the point halfway between its
/// first and last points put in front, on the curve.
pub open spec fn close_front(e: Seq<(Vec2, bool)>) -> Seq<(Vec2, bool)> {
    if e.len() > 0 && !e[0].1 {
        seq![(spec_mid(e[0].0, e[e.len() - 1].0), true)] + e
    } else {
        e
    }
}

/// The edges of an expanded contour from point `i` on: two on-curve points make a
/// segment, an on-curve point followed by an off-curve one and an on-curve one (the one
/// after the last wraps around to the first) make a quadratic curve; anything else is an
/// error.
pub open spec fn edges_from(e: Seq<(Vec2, bool)>, i: int) -> Result<Seq<BezierTypes>, Error>
    decreases e.len() - i,
{
    if i < 0 || i + 1 >= e.len() {
        Ok(Seq::empty())
    } else {
        let (p0, on0) = e[i];
        let (p1, on1) = e[i + 1];
        if on0 && on1 {
            prepend(
                seq![BezierTypes::Linear(LinearBezier { color: EdgeColor::WHITE, p: [p0, p1] })],
                edges_from(e, i + 1),
            )
        } else if on0 && !on1 {
            let (p2, on2) = e[(i + 2) % e.len() as int];
            if !on2 {
                Err(Error::Unknown)
            } else {
                prepend(
                    seq![BezierTypes::Quadratic(QuadraticBezier { color: EdgeColor::WHITE, p: [p0, p1, p2] })],
                    edges_from(e, i + 2),
                )
            }
        } else {
            Err(Error::Unknown)
        }
    }
}

/// The edges of the contour made of points `start..=end`; none when `end < start`.
pub open spec fn contour_edges(start: int, end: int, x: Seq<i16>, y: Seq<i16>, flags: Seq<u8>) -> Result<Seq<BezierTypes>, Error> {
    if end < start {
        Ok(Seq::empty())
    } else {
        let pts = contour_points(start, end, x, y, flags);
        edges_from(close_front(expand_upto(pts, pts.len() as int)), 0)
    }
}

/// Where an edge starts.
pub open spec fn edge_first(b: BezierTypes) -> Vec2 {
    match b {
        BezierTypes::Linear(l) => l.p[0],
        BezierTypes::Quadratic(q) => q.p[0],
        BezierTypes::Cubic(c) => c.p[0],
    }
}

/// Where an edge ends.
pub open spec fn edge_last(b: BezierTypes) -> Vec2 {
    match b {
        BezierTypes::Linear(l) => l.p[1],
        BezierTypes::Quadratic(q) => q.p[2],
        BezierTypes::Cubic(c) => c.p[3],
    }
}

/// The edges read from an expanded contour from point `i` on join up: the first starts at
/// point `i`, and each ends where the next starts.
pub proof fn lemma_edges_join(e: Seq<(Vec2, bool)>, i: int)
    requires
        edges_from(e, i) is Ok,
        0 <= i,
    ensures
        ({
            let s = edges_from(e, i)->Ok_0;
            &&& s.len() > 0 ==> edge_first(s[0]) == e[i].0
            &&& forall|m: int| 0 <= m < s.len() - 1 ==> #[trigger] edge_last(s[m]) == edge_first(s[m + 1])
        }),
    decreases e.len() - i,
{
    if i + 1 < e.len() {
        let (p0, on0) = e[i];
        let (p1, on1) = e[i + 1];
        let s = edges_from(e, i)->Ok_0;
        if on0 && on1 {
            lemma_edges_join(e, i + 1);
            let rest = edges_from(e, i + 1)->Ok_0;
            assert(s == seq![BezierTypes::Linear(LinearBezier { color: EdgeColor::WHITE, p: [p0, p1] })] + rest);
            assert forall|m: int| 0 <= m < s.len() - 1 implies #[trigger] edge_last(s[m]) == edge_first(s[m + 1]) by {
                if m > 0 {
                    assert(s[m] == rest[m - 1] && s[m + 1] == rest[m]);
                } else {
                    assert(s[1] == rest[0]);
                }
            }
        } else {
            let (p2, on2) = e[(i + 2) % e.len() as int];
            lemma_edges_join(e, i + 2);
            let rest = edges_from(e, i + 2)->Ok_0;
            assert(s == seq![BezierTypes::Quadratic(QuadraticBezier { color: EdgeColor::WHITE, p: [p0, p1, p2] })] + rest);
            assert forall|m: int| 0 <= m < s.len() - 1 implies #[trigger] edge_last(s[m]) == edge_first(s[m + 1]) by {
                if m > 0 {
                    assert(s[m] == rest[m - 1] && s[m + 1] == rest[m]);
                } else {
                    assert(s[1] == rest[0]);
                    assert(i + 2 < e.len());
                    let n = e.len() as int;
                    assert((i + 2) % n == i + 2) by (nonlinear_arith)
                        requires 0 <= i + 2 < n;
                }
            }
        }
    }
}

/// The edges of a contour join up: each ends where the next starts.
pub proof fn lemma_contour_edges_join(start: int, end: int, x: Seq<i16>, y: Seq<i16>, flags: Seq<u8>)
    requires
        contour_edges(start, end, x, y, flags) is Ok,
    ensures
        forall|m: int| 0 <= m < contour_edges(start, end, x, y, flags)->Ok_0.len() - 1
            ==> #[trigger] edge_last(contour_edges(start, end, x, y, flags)->Ok_0[m])
                == edge_first(contour_edges(start, end, x, y, flags)->Ok_0[m + 1]),
{
    if end >= start {
        let pts = contour_points(start, end, x, y, flags);
        lemma_edges_join(close_front(expand_upto(pts, pts.len() as int)), 0);
    }
}

/// An expanded contour whose points are all on the curve is its points unchanged.
proof fn lemma_expand_all_on(pts: Seq<(Vec2, bool)>, k: int)
    requires
        0 <= k <= pts.len(),
        forall|j: int| 0 <= j < pts.len() ==> (#[trigger] pts[j]).1,
    ensures
        expand_upto(pts, k) == pts.take(k),
    decreases k,
{
    if k > 0 {
        lemma_expand_all_on(pts, k - 1);
        assert(pts.take(k) =~= pts.take(k - 1) + seq![pts[k - 1]]);
    }
}

/// From point `i` on, an expanded contour of on-curve points gives one segment from each
/// point to the next.
proof fn lemma_edges_all_on(e: Seq<(Vec2, bool)>, i: int)
    requires
        0 <= i,
        forall|j: int| 0 <= j < e.len() ==> (#[trigger] e[j]).1,
    ensures
        edges_from(e, i) == Ok::<Seq<BezierTypes>, Error>(if i + 1 >= e.len() {
            Seq::empty()
        } else {
            Seq::new((e.len() - 1 - i) as nat, |m: int| BezierTypes::Linear(
                LinearBezier { color: EdgeColor::WHITE, p: [e[i + m].0, e[i + m + 1].0] }))
        }),
    decreases e.len() - i,
{
    if i + 1 < e.len() {
        lemma_edges_all_on(e, i + 1);
        let rest = edges_from(e, i + 1)->Ok_0;
        let want = Seq::new((e.len() - 1 - i) as nat, |m: int| BezierTypes::Linear(
            LinearBezier { color: EdgeColor::WHITE, p: [e[i + m].0, e[i + m + 1].0] }));
        assert(seq![BezierTypes::Linear(LinearBezier { color: EdgeColor::WHITE, p: [e[i].0, e[i + 1].0] })] + rest =~= want);
    }
}

/// A contour whose points are all on the curve becomes one segment from each point to
/// the next, each point taken at four times its coordinates (quarter font units); the
/// contour is not closed back to its first point.
pub proof fn lemma_on_curve_contour(start: int, end: int, x: Seq<i16>, y: Seq<i16>, flags: Seq<u8>)
    requires
        0 <= start <= end,
        end < x.len() && end < y.len() && end < flags.len(),
        forall|j: int| start <= j <= end ==> #[trigger] flags[j] & ON_CURVE_POINT != 0,
    ensures
        contour_edges(start, end, x, y, flags) == Ok::<Seq<BezierTypes>, Error>(
            Seq::new((end - start) as nat, |m: int| BezierTypes::Linear(LinearBezier {
                color: EdgeColor::WHITE,
                p: [
                    Vec2 { x: (4 * x[start + m]) as i32, y: (4 * y[start + m]) as i32 },
                    Vec2 { x: (4 * x[start + m + 1]) as i32, y: (4 * y[start + m + 1]) as i32 },
                ],
            }))),
{
    let pts = contour_points(start, end, x, y, flags);
    assert forall|j: int| 0 <= j < pts.len() implies (#[trigger] pts[j]).1 by {
        assert(flags[start + j] & ON_CURVE_POINT != 0);
    }
    lemma_expand_all_on(pts, pts.len() as int);
    assert(pts.take(pts.len() as int) =~= pts);
    assert(close_front(pts) == pts);
    lemma_edges_all_on(pts, 0);
    let want = Seq::new((end - start) as nat, |m: int| BezierTypes::Linear(LinearBezier {
        color: EdgeColor::WHITE,
        p: [
            Vec2 { x: (4 * x[start + m]) as i32, y: (4 * y[start + m]) as i32 },
            Vec2 { x: (4 * x[start + m + 1]) as i32, y: (4 * y[start + m + 1]) as i32 },
        ],
    }));
    if end > start {
        assert(edges_from(pts, 0)->Ok_0 =~= want);
    } else {
        assert(want =~= Seq::<BezierTypes>::empty());
    }
}

/// Turns the points `start..=end` of a glyph outline into its edges: segments and
/// quadratic curves, in quarter font units and white.
pub fn curve_from_coords(start: usize, end: usize, x: &[i16], y: &[i16], flags: &[u8]) -> (r: Result<Vec<BezierTypes>, Error>)
    requires
        end < start || (end < x@.len() && end < y@.len() && end < flags@.len()),
    ensures
        match (r, contour_edges(start as int, end as int, x@, y@, flags@)) {
            (Ok(v), Ok(s)) => v@ == s,
            (Err(e), Err(f)) => e == f,
            _ => false,
        },
{
    if end < start {
        return Ok(Vec::new());
    }
    let ghost pts_s = contour_points(start as int, end as int, x@, y@, flags@);
    let mut pts: Vec<(Vec2, bool)> = Vec::new();
    let mut i: usize = start;
    while i <= end
        invariant
            start <= i <= end + 1,
            end < x@.len() && end < y@.len() && end < flags@.len(),
            pts_s == contour_points(start as int, end as int, x@, y@, flags@),
            pts@ == pts_s.take(i - start),
        decreases end + 1 - i,
    {
        let on_curve = flags[i] & ON_CURVE_POINT != 0;
        pts.push((Vec2 { x: 4 * x[i] as i32, y: 4 * y[i] as i32 }, on_curve));
        i = i + 1;
        assert(pts@ =~= pts_s.take(i - start));
    }
    assert(pts@ =~= pts_s);
    let n = pts.len();
    let mut expanded: Vec<(Vec2, bool)> = Vec::new();
    let mut k: usize = 0;
    while k < n
        invariant
            k <= n,
            n == pts@.len(),
            n > 0,
            expanded@ == expand_upto(pts@, k as int),
        decreases n - k,
    {
        let (p0, on0) = pts[k];
        let (p1, on1) = pts[(k + 1) % n];
        expanded.push((p0, on0));
        if !on0 && !on1 {
            expanded.push((p0.mid(p1), true));
        }
        k = k + 1;
        assert(expanded@ =~= expand_upto(pts@, k as int));
    }
    assert(expanded@.len() > 0) by {
        assert(expand_upto(pts@, n as int) == expand_upto(pts@, n - 1) + expand_piece(pts@, n - 1));
    }
    if !expanded[0].1 {
        let last = expanded.len() - 1;
        let p0 = expanded[0].0;
        let p1 = expanded[last].0;
        expanded.insert(0, (p0.mid(p1), true));
    }
    let ghost e = expanded@;
    assert(e =~= close_front(expand_upto(pts@, n as int)));
    let len = expanded.len();
    let mut curves: Vec<BezierTypes> = Vec::new();
    let mut i: usize = 0;
    proof {
        assert(edges_from(e, 0) == contour_edges(start as int, end as int, x@, y@, flags@));
    }
    while i < len - 1
        invariant
            len == expanded@.len(),
            expanded@ == e,
            len >= 1,
            i <= len + 1,
            edges_from(e, 0) == contour_edges(start as int, end as int, x@, y@, flags@),
            edges_from(e, 0) == prepend(curves@, edges_from(e, i as int)),
        decreases len - i,
    {
        let (p0, on0) = expanded[i];
        let (p1, on1) = expanded[i + 1];
        let ghost before = curves@;
        if on0 && on1 {
            let l = LinearBezier::new(p0, p1, EdgeColor::WHITE);
            assert(l == LinearBezier { color: EdgeColor::WHITE, p: [p0, p1] }) by {
                assert(l.p =~= [p0, p1]);
            }
            curves.push(BezierTypes::Linear(l));
            i = i + 1;
            proof {
                match edges_from(e, i as int) {
                    Ok(rest) => {
                        assert(before + (seq![curves@.last()] + rest) =~= curves@ + rest);
                    },
                    Err(_) => {},
                }
            }
        } else if on0 && !on1 {
            let (p2, on2) = expanded[(i + 2) % len];
            if !on2 {
                return Err(Error::Unknown);
            }
            let q = QuadraticBezier::new(p0, p1, p2, EdgeColor::WHITE);
            assert(q == QuadraticBezier { color: EdgeColor::WHITE, p: [p0, p1, p2] }) by {
                assert(q.p =~= [p0, p1, p2]);
            }
            curves.push(BezierTypes::Quadratic(q));
            i = i + 2;
            proof {
                match edges_from(e, i as int) {
                    Ok(rest) => {
                        assert(before + (seq![curves@.last()] + rest) =~= curves@ + rest);
                    },
                    Err(_) => {},
                }
            }
        } else {
            return Err(Error::Unknown);
        }
    }
    assert(curves@ + Seq::<BezierTypes>::empty() =~= curves@);
    Ok(curves)
}

/// Prepends what was already gathered to the outcome of the rest, keeping the end position.
pub open spec fn prepend_at<T>(acc: Seq<T>, r: Result<(Seq<T>, int), Error>) -> Result<(Seq<T>, int), Error> {
    match r {
        Ok((rest, end)) => Ok((acc + rest, end)),
        Err(e) => Err(e),
    }
}

/// `v` wrapped to a 16-bit two's complement value.
pub open spec fn wrap16(v: int) -> i16 {
    ((v + 32768) % 65536 - 32768) as i16
}

/// The flags of `remaining` points starting at `pos`, and where they end: a flag byte
/// with the repeat bit is followed by a count of further copies.
pub open spec fn flags_from(d: Seq<u8>, pos: int, remaining: nat) -> Result<(Seq<u8>, int), Error>
    decreases remaining,
{
    if remaining == 0 {
        Ok((Seq::empty(), pos))
    } else if !fits(d, pos, 1) {
        Err(eof())
    } else {
        let raw = d[pos];
        if raw & REPEAT_FLAG != 0 {
            if !fits(d, pos + 1, 1) {
                Err(eof())
            } else {
                let copies = d[pos + 1] as int + 1;
                let left: nat = if copies >= remaining { 0 } else { (remaining - copies) as nat };
                prepend_at(Seq::new(copies as nat, |k: int| raw), flags_from(d, pos + 2, left))
            }
        } else {
            prepend_at(seq![raw], flags_from(d, pos + 1, (remaining - 1) as nat))
        }
    }
}

/// The delta that flag `f` gives at `pos` and where it ends: a byte (positive or
/// negated as the same-or-positive bit says) when the short bit is set, nothing (0)
/// when only the same-or-positive bit is set, else a signed word.
pub open spec fn delta_at(d: Seq<u8>, pos: int, f: u8, short: u8, same: u8) -> Result<(int, int), Error> {
    if f & short != 0 {
        if !fits(d, pos, 1) {
            Err(eof())
        } else if f & same != 0 {
            Ok((d[pos] as int, pos + 1))
        } else {
            Ok((-(d[pos] as int), pos + 1))
        }
    } else if f & same != 0 {
        Ok((0, pos))
    } else if !fits(d, pos, 2) {
        Err(eof())
    } else {
        Ok((i16_at(d, pos) as int, pos + 2))
    }
}

/// The coordinates from point `k` on, each the previous one plus its delta, wrapping
/// at 16 bits; `cur` is the coordinate of point `k - 1` (0 before the first).
pub open spec fn deltas_from(d: Seq<u8>, pos: int, flags: Seq<u8>, short: u8, same: u8, k: int, cur: i16)
    -> Result<(Seq<i16>, int), Error>
    decreases flags.len() - k,
{
    if k < 0 || k >= flags.len() {
        Ok((Seq::empty(), pos))
    } else {
        match delta_at(d, pos, flags[k], short, same) {
            Err(e) => Err(e),
            Ok((delta, next)) => {
                let v = wrap16(cur + delta);
                prepend_at(seq![v], deltas_from(d, next, flags, short, same, k + 1, v))
            },
        }
    }
}

/// How many bytes the delta of a point with flag `f` takes: one when the short bit is
/// set, none when only the same-or-positive bit is, else two.
pub open spec fn delta_size(f: u8, short: u8, same: u8) -> int {
    if f & short != 0 { 1 } else if f & same != 0 { 0 } else { 2 }
}

/// How many bytes the deltas of the first `k` points take.
pub open spec fn delta_offset(flags: Seq<u8>, short: u8, same: u8, k: int) -> int
    decreases k,
{
    if k <= 0 { 0 } else { delta_offset(flags, short, same, k - 1) + delta_size(flags[k - 1], short, same) }
}

/// From point `k0` on, where the coordinates read start `q` bytes in, each coordinate is
/// the one before it (`cur` before point `k0`) moved by the delta its flag calls for.
#[verifier::spinoff_prover]
#[verifier::rlimit(60)]
pub proof fn lemma_deltas_from_law(d: Seq<u8>, pos: int, flags: Seq<u8>, short: u8, same: u8, k0: int, cur: i16)
    requires
        0 <= k0 <= flags.len(),
        deltas_from(d, pos + delta_offset(flags, short, same, k0), flags, short, same, k0, cur) is Ok,
    ensures
        ({
            let (xs, end) = deltas_from(d, pos + delta_offset(flags, short, same, k0), flags, short, same, k0, cur)->Ok_0;
            &&& xs.len() == flags.len() - k0
            &&& end == pos + delta_offset(flags, short, same, flags.len() as int)
            &&& forall|m: int| #![trigger xs[m]] 0 <= m < xs.len() ==> {
                let k = k0 + m;
                let f = flags[k];
                let q = pos + delta_offset(flags, short, same, k);
                let prev: int = if m == 0 { cur as int } else { xs[m - 1] as int };
                &&& f & short != 0 && f & same != 0 ==> xs[m] == wrap16(prev + d[q])
                &&& f & short != 0 && f & same == 0 ==> xs[m] == wrap16(prev - d[q])
                &&& f & short == 0 && f & same != 0 ==> xs[m] == prev
                &&& f & short == 0 && f & same == 0 ==> xs[m] == wrap16(prev + i16_at(d, q))
            }
        }),
    decreases flags.len() - k0,
{
    let q = pos + delta_offset(flags, short, same, k0);
    if k0 < flags.len() {
        let f = flags[k0];
        let (delta, next) = delta_at(d, q, f, short, same)->Ok_0;
        let v = wrap16(cur + delta);
        assert(delta_offset(flags, short, same, k0 + 1) == delta_offset(flags, short, same, k0) + delta_size(f, short, same));
        assert(next == pos + delta_offset(flags, short, same, k0 + 1));
        lemma_deltas_from_law(d, pos, flags, short, same, k0 + 1, v);
        let (rest, end) = deltas_from(d, next, flags, short, same, k0 + 1, v)->Ok_0;
        let xs = seq![v] + rest;
        assert(deltas_from(d, q, flags, short, same, k0, cur)->Ok_0 == (xs, end));
        assert forall|m: int| #![trigger xs[m]] 0 <= m < xs.len() implies {
            let k = k0 + m;
            let f = flags[k];
            let q = pos + delta_offset(flags, short, same, k);
            let prev: int = if m == 0 { cur as int } else { xs[m - 1] as int };
            &&& f & short != 0 && f & same != 0 ==> xs[m] == wrap16(prev + d[q])
            &&& f & short != 0 && f & same == 0 ==> xs[m] == wrap16(prev - d[q])
            &&& f & short == 0 && f & same != 0 ==> xs[m] == prev
            &&& f & short == 0 && f & same == 0 ==> xs[m] == wrap16(prev + i16_at(d, q))
        } by {
            if m == 0 {
                assert(xs[0] == v);
                if f & short == 0 && f & same != 0 {
                    assert(wrap16(cur as int) == cur) by (nonlinear_arith)
                        requires -32768 <= cur <= 32767;
                }
            } else {
                assert(xs[m] == rest[m - 1]);
                if m == 1 {
                    assert(xs[m - 1] == v);
                } else {
                    assert(xs[m - 1] == rest[m - 2]);
                }
            }
        }
    }
}

/// Reading coordinates: there is one per flag, and each is the one before it (0 before
/// the first) moved by the delta its flag calls for: a byte added when the short and the
/// same-or-positive bits are set, a byte taken away when only the short bit is, nothing
/// when only the same-or-positive bit is, and a signed word added when neither is, all
/// wrapping at 16 bits. The delta of point `k` is read after those of the points before
/// it, which take one, no or two bytes each.
pub proof fn lemma_read_deltas_law(d: Seq<u8>, pos: int, flags: Seq<u8>, short: u8, same: u8)
    requires
        deltas_from(d, pos, flags, short, same, 0, 0) is Ok,
    ensures
        ({
            let (xs, end) = deltas_from(d, pos, flags, short, same, 0, 0)->Ok_0;
            &&& xs.len() == flags.len()
            &&& end == pos + delta_offset(flags, short, same, flags.len() as int)
            &&& forall|k: int| #![trigger xs[k]] 0 <= k < xs.len() ==> {
                let f = flags[k];
                let q = pos + delta_offset(flags, short, same, k);
                let prev: int = if k == 0 { 0 } else { xs[k - 1] as int };
                &&& f & short != 0 && f & same != 0 ==> xs[k] == wrap16(prev + d[q])
                &&& f & short != 0 && f & same == 0 ==> xs[k] == wrap16(prev - d[q])
                &&& f & short == 0 && f & same != 0 ==> xs[k] == prev
                &&& f & short == 0 && f & same == 0 ==> xs[k] == wrap16(prev + i16_at(d, q))
            }
        }),
{
    assert(delta_offset(flags, short, same, 0) == 0);
    lemma_deltas_from_law(d, pos, flags, short, same, 0, 0);
}

/// `cur + delta` wrapped at 16 bits.
fn add_wrapping(cur: i16, delta: i16) -> (r: i16)
    ensures
        r == wrap16(cur + delta),
{
    let s = cur as i32 + delta as i32;
    if s > 32767 {
        assert(wrap16(s as int) == s - 65536) by (nonlinear_arith)
            requires 32767 < s <= 65534;
        (s - 65536) as i16
    } else if s < -32768 {
        assert(wrap16(s as int) == s + 65536) by (nonlinear_arith)
            requires -65536 <= s < -32768;
        (s + 65536) as i16
    } else {
        assert(wrap16(s as int) == s) by (nonlinear_arith)
            requires -32768 <= s <= 32767;
        s as i16
    }
}

/// Reads the coordinates of an outline along one axis, one delta per flag.
pub fn read_deltas(cursor: &mut Cursor, flags: &[u8], short_flag: u8, same_or_positive_flag: u8) -> (r: Result<Vec<i16>, Error>)
    ensures
        final(cursor).data@ == old(cursor).data@,
        match (r, deltas_from(old(cursor).data@, old(cursor).pos as int, flags@, short_flag, same_or_positive_flag, 0, 0)) {
            (Ok(v), Ok((s, end))) => v@ == s && final(cursor).pos == end,
            (Err(e), Err(f)) => e == f,
            _ => false,
        },
{
    let ghost d = cursor.data@;
    let ghost p = cursor.pos as int;
    let mut coords: Vec<i16> = Vec::with_capacity(flags.len());
    let mut current: i16 = 0;
    let mut k: usize = 0;
    while k < flags.len()
        invariant
            k <= flags.len(),
            cursor.data@ == d,
            d == old(cursor).data@,
            p == old(cursor).pos,
            deltas_from(d, p, flags@, short_flag, same_or_positive_flag, 0, 0)
                == prepend_at(coords@, deltas_from(d, cursor.pos as int, flags@, short_flag, same_or_positive_flag, k as int, current)),
        decreases flags.len() - k,
    {
        let flag = flags[k];
        let ghost before = coords@;
        let delta: i16 = if flag & short_flag != 0 {
            let v = cursor.read_u8()? as i16;
            if flag & same_or_positive_flag != 0 {
                v
            } else {
                -v
            }
        } else if flag & same_or_positive_flag != 0 {
            0
        } else {
            cursor.read_i16()?
        };
        current = add_wrapping(current, delta);
        coords.push(current);
        k = k + 1;
        proof {
            match deltas_from(d, cursor.pos as int, flags@, short_flag, same_or_positive_flag, k as int, current) {
                Ok((rest, end)) => {
                    assert(before + (seq![current] + rest) =~= coords@ + rest);
                },
                Err(_) => {},
            }
        }
    }
    proof {
        assert(coords@ + Seq::<i16>::empty() =~= coords@);
    }
    Ok(coords)
}

/// Reading the flags of `n` points gives at least `n` flags; the first is the byte read
/// first, and when that byte has the repeat bit, the byte after it counts further copies,
/// so the flag comes that many times more at the start.
pub proof fn lemma_flags_law(d: Seq<u8>, pos: int, n: nat)
    requires
        flags_from(d, pos, n) is Ok,
    ensures
        ({
            let fs = flags_from(d, pos, n)->Ok_0.0;
            &&& fs.len() >= n
            &&& n > 0 ==> fs[0] == d[pos]
            &&& n > 0 && d[pos] & REPEAT_FLAG != 0 ==> fs.len() >= d[pos + 1] + 1
                && forall|k: int| 0 <= k <= d[pos + 1] ==> #[trigger] fs[k] == d[pos]
        }),
    decreases n,
{
    if n > 0 {
        let raw = d[pos];
        if raw & REPEAT_FLAG != 0 {
            let copies = d[pos + 1] as int + 1;
            let left: nat = if copies >= n { 0 } else { (n - copies) as nat };
            lemma_flags_law(d, pos + 2, left);
            let rest = flags_from(d, pos + 2, left)->Ok_0.0;
            let fs = flags_from(d, pos, n)->Ok_0.0;
            assert(fs == Seq::new(copies as nat, |k: int| raw) + rest);
            assert forall|k: int| 0 <= k <= d[pos + 1] implies #[trigger] fs[k] == d[pos] by {
                assert(fs[k] == Seq::new(copies as nat, |k: int| raw)[k]);
            }
        } else {
            lemma_flags_law(d, pos + 1, (n - 1) as nat);
        }
    }
}

/// Reads the flags of `num_points` points; a repeated flag may run past that count.
pub fn read_flags(cursor: &mut Cursor, num_points: u32) -> (r: Result<Vec<u8>, Error>)
    ensures
        final(cursor).data@ == old(cursor).data@,
        match (r, flags_from(old(cursor).data@, old(cursor).pos as int, num_points as nat)) {
            (Ok(v), Ok((s, end))) => v@ == s && final(cursor).pos == end,
            (Err(e), Err(f)) => e == f,
            _ => false,
        },
{
    let ghost d = cursor.data@;
    let ghost p = cursor.pos as int;
    let mut flags: Vec<u8> = Vec::new();
    let mut i: u32 = 0;
    while i < num_points
        invariant
            i <= num_points,
            cursor.data@ == d,
            d == old(cursor).data@,
            p == old(cursor).pos,
            flags_from(d, p, num_points as nat)
                == prepend_at(flags@, flags_from(d, cursor.pos as int, (num_points - i) as nat)),
        decreases num_points - i,
    {
        let ghost before = flags@;
        let ghost q = cursor.pos as int;
        let raw_flag = cursor.read_u8()?;
        let repeat: u8 = if raw_flag & REPEAT_FLAG != 0 {
            cursor.read_u8()?
        } else {
            0
        };
        let mut j: u32 = 0;
        while j <= repeat as u32
            invariant
                j <= repeat as u32 + 1,
                flags@ == before + Seq::new(j as nat, |k: int| raw_flag),
            decreases repeat as u32 + 1 - j,
        {
            flags.push(raw_flag);
            j = j + 1;
            assert(flags@ =~= before + Seq::new(j as nat, |k: int| raw_flag));
        }
        let copies: u32 = repeat as u32 + 1;
        let ghost left: nat = if copies >= num_points - i { 0 } else { (num_points - i - copies) as nat };
        i = if copies >= num_points - i { num_points } else { i + copies };
        proof {
            assert((num_points - i) as nat == left);
            if raw_flag & REPEAT_FLAG == 0 {
                assert(Seq::new(1, |k: int| raw_flag) =~= seq![raw_flag]);
            }
            match flags_from(d, cursor.pos as int, left) {
                Ok((rest, end)) => {
                    assert(before + (Seq::new(copies as nat, |k: int| raw_flag) + rest) =~= flags@ + rest);
                },
                Err(_) => {},
            }
        }
    }
    proof {
        assert(flags@ + Seq::<u8>::empty() =~= flags@);
    }
    Ok(flags)
}

/// The header of a glyph description.
#[derive(Debug, Clone, Copy)]
pub struct GlyphHeader {
    pub contour_count: i16,
    pub x_min: i16,
    pub y_min: i16,
    pub x_max: i16,
    pub y_max: i16,
}

/// A glyph made of contours of edges, in quarter font units.
#[derive(Debug)]
pub struct SimpleGlyph {
    pub header: GlyphHeader,
    pub contours: Vec<Vec<BezierTypes>>,
}

/// The edges of each contour, from contour `k` on; `start` is the first point of
/// contour `k`, and each contour ends at its end point. An end point past the last
/// point is an error.
pub open spec fn contours_from(ends: Seq<u16>, x: Seq<i16>, y: Seq<i16>, flags: Seq<u8>, k: int, start: int)
    -> Result<Seq<Seq<BezierTypes>>, Error>
    decreases ends.len() - k,
{
    if k < 0 || k >= ends.len() {
        Ok(Seq::empty())
    } else {
        let end = ends[k] as int;
        if end >= start && end >= flags.len() {
            Err(Error::InvalidFormat("glyph end point"))
        } else {
            match contour_edges(start, end, x, y, flags) {
                Err(e) => Err(e),
                Ok(c) => prepend(seq![c], contours_from(ends, x, y, flags, k + 1, end + 1)),
            }
        }
    }
}

/// The contours of a simple glyph with `n` contours whose description (past the header)
/// starts at `p`: the end points, the instructions (skipped), the flags, the x and the
/// y coordinates.
pub open spec fn simple_contours(d: Seq<u8>, p: int, n: int) -> Result<Seq<Seq<BezierTypes>>, Error> {
    if n <= 0 {
        Ok(Seq::empty())
    } else if !fits(d, p, 2 * n) {
        Err(eof())
    } else if !fits(d, p + 2 * n, 2) {
        Err(eof())
    } else {
        let ends = u16_seq(d, p, n);
        let q = p + 2 * n + 2 + u16_at(d, p + 2 * n);
        if q > d.len() {
            Err(out_of_bounds())
        } else {
            match flags_from(d, q, (ends[n - 1] + 1) as nat) {
                Err(e) => Err(e),
                Ok((flags, fe)) => match deltas_from(d, fe, flags, X_SHORT_VECTOR, X_IS_SAME_OR_POSITIVE_X_SHORT_VECTOR, 0, 0) {
                    Err(e) => Err(e),
                    Ok((xs, xe)) => match deltas_from(d, xe, flags, Y_SHORT_VECTOR, Y_IS_SAME_OR_POSITIVE_Y_SHORT_VECTOR, 0, 0) {
                        Err(e) => Err(e),
                        Ok((ys, _)) => contours_from(ends, xs, ys, flags, 0, 0),
                    },
                },
            }
        }
    }
}

/// The first point of contour `m` counted from end point `k`, the first of them starting
/// at point `start`: the point after the previous contour's end point.
pub open spec fn contour_first(ends: Seq<u16>, k: int, start: int, m: int) -> int {
    if m == 0 { start } else { ends[k + m - 1] + 1 }
}

/// The contours read from end point `k` on, the first starting at point `start`: one per
/// end point left, each made of the points after the previous contour's end point up to
/// and including its own end point.
pub proof fn lemma_contours_from_law(ends: Seq<u16>, x: Seq<i16>, y: Seq<i16>, flags: Seq<u8>, k: int, start: int)
    requires
        0 <= k <= ends.len(),
        contours_from(ends, x, y, flags, k, start) is Ok,
    ensures
        contours_from(ends, x, y, flags, k, start)->Ok_0.len() == ends.len() - k,
        forall|m: int| 0 <= m < ends.len() - k ==> #[trigger] contour_edges(contour_first(ends, k, start, m), ends[k + m] as int, x, y, flags) is Ok
            && contours_from(ends, x, y, flags, k, start)->Ok_0[m]
                == contour_edges(contour_first(ends, k, start, m), ends[k + m] as int, x, y, flags)->Ok_0,
    decreases ends.len() - k,
{
    if k < ends.len() {
        let end = ends[k] as int;
        lemma_contours_from_law(ends, x, y, flags, k + 1, end + 1);
        let c = contour_edges(start, end, x, y, flags)->Ok_0;
        let rest = contours_from(ends, x, y, flags, k + 1, end + 1)->Ok_0;
        let cs = contours_from(ends, x, y, flags, k, start)->Ok_0;
        assert(contour_edges(start, end, x, y, flags) is Ok);
        assert(cs == seq![c] + rest);
        assert forall|m: int| 0 <= m < ends.len() - k implies #[trigger] contour_edges(contour_first(ends, k, start, m), ends[k + m] as int, x, y, flags) is Ok
            && cs[m] == contour_edges(contour_first(ends, k, start, m), ends[k + m] as int, x, y, flags)->Ok_0 by {
            if m > 0 {
                assert(contour_first(ends, k, start, m) == contour_first(ends, k + 1, end + 1, m - 1));
                assert(ends[k + m] == ends[k + 1 + (m - 1)]);
                assert(contour_edges(contour_first(ends, k + 1, end + 1, m - 1), ends[k + 1 + (m - 1)] as int, x, y, flags) is Ok);
                assert(cs[m] == rest[m - 1]);
            }
        }
    }
}

/// A simple glyph description at `p` with `n >= 1` contours: `n` end point words, an
/// instruction length word and that many instruction bytes (skipped), the flags of the
/// points up to the last end point, the x coordinates (read with the x-short bit 0x02 and
/// the x-same-or-positive bit 0x10) and then the y coordinates (read with the y-short bit
/// 0x04 and the y-same-or-positive bit 0x20). Contour `m` is made of the points after end
/// point `m - 1` (from point 0 for the first) up to end point `m`.
pub proof fn lemma_simple_glyph_layout(d: Seq<u8>, p: int, n: int)
    requires
        n >= 1,
        simple_contours(d, p, n) is Ok,
    ensures
        ({
            let cs = simple_contours(d, p, n)->Ok_0;
            let q = p + 2 * n + 2 + u16_at(d, p + 2 * n);
            let (flags, fe) = flags_from(d, q, (u16_at(d, p + 2 * (n - 1)) + 1) as nat)->Ok_0;
            let (xs, xe) = deltas_from(d, fe, flags, 0x02, 0x10, 0, 0)->Ok_0;
            let ys = deltas_from(d, xe, flags, 0x04, 0x20, 0, 0)->Ok_0.0;
            &&& cs.len() == n
            &&& forall|m: int| #![trigger cs[m]] 0 <= m < n ==> {
                let first: int = if m == 0 { 0 } else { u16_at(d, p + 2 * (m - 1)) + 1 };
                cs[m] == contour_edges(first, u16_at(d, p + 2 * m) as int, xs, ys, flags)->Ok_0
            }
        }),
{
    let ends = u16_seq(d, p, n);
    let q = p + 2 * n + 2 + u16_at(d, p + 2 * n);
    let (flags, fe) = flags_from(d, q, (ends[n - 1] + 1) as nat)->Ok_0;
    let (xs, xe) = deltas_from(d, fe, flags, X_SHORT_VECTOR, X_IS_SAME_OR_POSITIVE_X_SHORT_VECTOR, 0, 0)->Ok_0;
    let ys = deltas_from(d, xe, flags, Y_SHORT_VECTOR, Y_IS_SAME_OR_POSITIVE_Y_SHORT_VECTOR, 0, 0)->Ok_0.0;
    lemma_contours_from_law(ends, xs, ys, flags, 0, 0);
    let cs = simple_contours(d, p, n)->Ok_0;
    assert forall|m: int| #![trigger cs[m]] 0 <= m < n implies {
        let first: int = if m == 0 { 0 } else { u16_at(d, p + 2 * (m - 1)) + 1 };
        cs[m] == contour_edges(first, u16_at(d, p + 2 * m) as int, xs, ys, flags)->Ok_0
    } by {
        assert(ends[m] == u16_at(d, p + 2 * m));
        if m > 0 {
            assert(ends[m - 1] == u16_at(d, p + 2 * (m - 1)));
        }
        assert(contour_edges(contour_first(ends, 0, 0, m), ends[m] as int, xs, ys, flags) is Ok);
    }
}

pub proof fn lemma_deltas_len(d: Seq<u8>, pos: int, flags: Seq<u8>, short: u8, same: u8, k: int, cur: i16)
    requires
        0 <= k <= flags.len(),
    ensures
        deltas_from(d, pos, flags, short, same, k, cur) matches Ok((s, _)) ==> s.len() == flags.len() - k,
    decreases flags.len() - k,
{
    if k < flags.len() {
        match delta_at(d, pos, flags[k], short, same) {
            Err(_) => {},
            Ok((delta, next)) => {
                lemma_deltas_len(d, next, flags, short, same, k + 1, wrap16(cur + delta));
            },
        }
    }
}

/// The contours of a simple glyph as sequences of edges.
pub open spec fn contours_view(contours: Seq<Vec<BezierTypes>>) -> Seq<Seq<BezierTypes>> {
    contours.map_values(|c: Vec<BezierTypes>| c@)
}

/// Reads the description of a simple glyph whose header was read, at the cursor.
fn parse_simple(cursor: &mut Cursor, header: GlyphHeader) -> (r: Result<SimpleGlyph, Error>)
    requires
        header.contour_count >= 0,
    ensures
        final(cursor).data@ == old(cursor).data@,
        match (r, simple_contours(old(cursor).data@, old(cursor).pos as int, header.contour_count as int)) {
            (Ok(g), Ok(s)) => g.header == header && contours_view(g.contours@) == s,
            (Err(e), Err(f)) => e == f,
            _ => false,
        },
{
    let ghost d = cursor.data@;
    let ghost p = cursor.pos as int;
    if header.contour_count == 0 {
        let contours: Vec<Vec<BezierTypes>> = Vec::new();
        assert(contours_view(contours@) =~= Seq::<Seq<BezierTypes>>::empty());
        return Ok(SimpleGlyph { header, contours });
    }
    let n = header.contour_count as usize;
    let end_points = cursor.read_u16_array(n)?;
    let instruct_length = cursor.read_u16()?;
    cursor.seek_rel(cursor.position(), instruct_length as usize)?;
    let num_points: u32 = end_points[n - 1] as u32 + 1;
    let flags = read_flags(cursor, num_points)?;
    let x_coordinates = read_deltas(cursor, flags.as_slice(), X_SHORT_VECTOR, X_IS_SAME_OR_POSITIVE_X_SHORT_VECTOR)?;
    let y_coordinates = read_deltas(cursor, flags.as_slice(), Y_SHORT_VECTOR, Y_IS_SAME_OR_POSITIVE_Y_SHORT_VECTOR)?;
    let ghost fe = p + 2 * n + 2 + instruct_length;
    proof {
        lemma_deltas_len(d, (flags_from(d, fe, num_points as nat)->Ok_0).1, flags@, X_SHORT_VECTOR, X_IS_SAME_OR_POSITIVE_X_SHORT_VECTOR, 0, 0);
        let xe = (deltas_from(d, (flags_from(d, fe, num_points as nat)->Ok_0).1, flags@, X_SHORT_VECTOR, X_IS_SAME_OR_POSITIVE_X_SHORT_VECTOR, 0, 0)->Ok_0).1;
        lemma_deltas_len(d, xe, flags@, Y_SHORT_VECTOR, Y_IS_SAME_OR_POSITIVE_Y_SHORT_VECTOR, 0, 0);
    }
    let ghost total = contours_from(end_points@, x_coordinates@, y_coordinates@, flags@, 0, 0);
    assert(total == simple_contours(d, p, n as int));
    let mut start: usize = 0;
    let mut curves: Vec<Vec<BezierTypes>> = Vec::with_capacity(n);
    let mut k: usize = 0;
    while k < n
        invariant
            k <= n,
            n == end_points@.len(),
            x_coordinates@.len() == flags@.len(),
            y_coordinates@.len() == flags@.len(),
            start <= 0x10000,
            total == contours_from(end_points@, x_coordinates@, y_coordinates@, flags@, 0, 0),
            total == simple_contours(old(cursor).data@, old(cursor).pos as int, header.contour_count as int),
            cursor.data@ == old(cursor).data@,
            total == prepend(contours_view(curves@),
                contours_from(end_points@, x_coordinates@, y_coordinates@, flags@, k as int, start as int)),
        decreases n - k,
    {
        let end = end_points[k] as usize;
        if end >= start && end >= flags.len() {
            return Err(Error::InvalidFormat("glyph end point"));
        }
        let ghost before = contours_view(curves@);
        let contour_curves = curve_from_coords(start, end, x_coordinates.as_slice(), y_coordinates.as_slice(), flags.as_slice())?;
        let ghost c = contour_curves@;
        curves.push(contour_curves);
        start = end + 1;
        k = k + 1;
        proof {
            assert(contours_view(curves@) =~= before + seq![c]);
            match contours_from(end_points@, x_coordinates@, y_coordinates@, flags@, k as int, start as int) {
                Ok(rest) => {
                    assert(before + (seq![c] + rest) =~= contours_view(curves@) + rest);
                },
                Err(_) => {},
            }
        }
    }
    assert(contours_view(curves@) + Seq::<Seq<BezierTypes>>::empty() =~= contours_view(curves@));
    Ok(SimpleGlyph { header, contours: curves })
}

/// Component flag: the arguments are words (else bytes).
pub const ARG_1_AND_2_ARE_WORDS: u16 = 0x0001;
/// Component flag: the arguments are signed x and y offsets (else unsigned point numbers).
pub const ARGS_ARE_XY_VALUES: u16 = 0x0002;
/// Component flag: one scale for both axes follows.
pub const WE_HAVE_A_SCALE: u16 = 0x0008;
/// Component flag: another component follows this one.
pub const MORE_COMPONENTS: u16 = 0x0020;
/// Component flag: an x scale and a y scale follow.
pub const WE_HAVE_AN_X_AND_Y_SCALE: u16 = 0x0040;
/// Component flag: a two by two matrix follows.
pub const WE_HAVE_A_TWO_BY_TWO: u16 = 0x0080;

/// The placement of a component: the matrix `[a b; c d]` in 2.14 fixed point and the
/// offset `(dx, dy)` as read from the component's arguments.
#[derive(Debug, Clone, Copy, PartialEq, Eq, Structural)]
pub struct Transform {
    pub a: F2Dot14,
    pub b: F2Dot14,
    pub c: F2Dot14,
    pub d: F2Dot14,
    pub dx: i32,
    pub dy: i32,
}

/// 1.0 in 2.14 fixed point.
pub const F2DOT14_ONE: i16 = 0x4000;

impl Transform {
    /// The identity matrix with no offset.
    pub open spec fn spec_identity() -> Transform {
        Transform { a: F2Dot14(F2DOT14_ONE), b: F2Dot14(0), c: F2Dot14(0), d: F2Dot14(F2DOT14_ONE), dx: 0, dy: 0 }
    }

    pub fn identity() -> (t: Transform)
        ensures
            t == Transform::spec_identity(),
    {
        Transform { a: F2Dot14(F2DOT14_ONE), b: F2Dot14(0), c: F2Dot14(0), d: F2Dot14(F2DOT14_ONE), dx: 0, dy: 0 }
    }
}

/// A component as read, before the glyph it refers to is parsed.
#[derive(Debug, Clone, Copy)]
pub struct UnresolvedComponent {
    pub flags: u16,
    pub gid: GlyphId,
    pub transform: Transform,
}

/// The arguments of a component with `flags` at `q`, and where they end.
pub open spec fn args_at(d: Seq<u8>, q: int, flags: u16) -> Result<(i32, i32, int), Error> {
    if flags & ARG_1_AND_2_ARE_WORDS != 0 {
        if !fits(d, q, 4) { Err(eof()) } else { Ok((i16_at(d, q) as i32, i16_at(d, q + 2) as i32, q + 4)) }
    } else if flags & ARGS_ARE_XY_VALUES != 0 {
        if !fits(d, q, 2) { Err(eof()) } else { Ok((i8_of(d[q]) as i32, i8_of(d[q + 1]) as i32, q + 2)) }
    } else {
        if !fits(d, q, 2) { Err(eof()) } else { Ok((d[q] as i32, d[q + 1] as i32, q + 2)) }
    }
}

/// The matrix of a component with `flags` at `q`, and where it ends.
pub open spec fn transform_at(d: Seq<u8>, q: int, flags: u16) -> Result<(Transform, int), Error> {
    let id = Transform::spec_identity();
    if flags & WE_HAVE_A_SCALE != 0 {
        if !fits(d, q, 2) {
            Err(eof())
        } else {
            Ok((Transform { a: F2Dot14(i16_at(d, q)), d: F2Dot14(i16_at(d, q)), ..id }, q + 2))
        }
    } else if flags & WE_HAVE_AN_X_AND_Y_SCALE != 0 {
        if !fits(d, q, 4) {
            Err(eof())
        } else {
            Ok((Transform { a: F2Dot14(i16_at(d, q)), d: F2Dot14(i16_at(d, q + 2)), ..id }, q + 4))
        }
    } else if flags & WE_HAVE_A_TWO_BY_TWO != 0 {
        if !fits(d, q, 8) {
            Err(eof())
        } else {
            Ok((
                Transform {
                    a: F2Dot14(i16_at(d, q)),
                    b: F2Dot14(i16_at(d, q + 2)),
                    c: F2Dot14(i16_at(d, q + 4)),
                    d: F2Dot14(i16_at(d, q + 6)),
                    ..id
                },
                q + 8,
            ))
        }
    } else {
        Ok((id, q))
    }
}

/// The component record at `pos` and where it ends: flags, glyph index, arguments,
/// matrix; the arguments become the offset.
pub open spec fn component_at(d: Seq<u8>, pos: int) -> Result<(UnresolvedComponent, int), Error> {
    if !fits(d, pos, 4) {
        Err(eof())
    } else {
        let flags = u16_at(d, pos);
        match args_at(d, pos + 4, flags) {
            Err(e) => Err(e),
            Ok((dx, dy, q)) => match transform_at(d, q, flags) {
                Err(e) => Err(e),
                Ok((t, end)) => Ok((
                    UnresolvedComponent { flags, gid: u16_at(d, pos + 2), transform: Transform { dx, dy, ..t } },
                    end,
                )),
            },
        }
    }
}

/// A component record read at `pos`: its flags, then the glyph it places, then the two
/// arguments that become its offset (signed words when the words flag is set, else signed
/// bytes when the x-y flag is set, else unsigned bytes), then its matrix: one scale for
/// both axes, or an x scale and a y scale, or the four entries in order, or the identity
/// when no scale flag is set, each entry in 2.14 fixed point.
pub proof fn lemma_component_layout(d: Seq<u8>, pos: int)
    requires
        component_at(d, pos) is Ok,
    ensures
        ({
            let (u, end) = component_at(d, pos)->Ok_0;
            let f = u16_at(d, pos);
            let t = u.transform;
            let q: int = if f & ARG_1_AND_2_ARE_WORDS != 0 { pos + 8 } else { pos + 6 };
            &&& u.flags == f
            &&& u.gid == u16_at(d, pos + 2)
            &&& f & ARG_1_AND_2_ARE_WORDS != 0 ==> t.dx == i16_at(d, pos + 4) && t.dy == i16_at(d, pos + 6)
            &&& f & ARG_1_AND_2_ARE_WORDS == 0 && f & ARGS_ARE_XY_VALUES != 0
                ==> t.dx == i8_of(d[pos + 4]) && t.dy == i8_of(d[pos + 5])
            &&& f & ARG_1_AND_2_ARE_WORDS == 0 && f & ARGS_ARE_XY_VALUES == 0
                ==> t.dx == d[pos + 4] && t.dy == d[pos + 5]
            &&& f & WE_HAVE_A_SCALE != 0 ==> t.a.0 == i16_at(d, q) && t.d.0 == i16_at(d, q) && t.b.0 == 0 && t.c.0 == 0
                && end == q + 2
            &&& f & WE_HAVE_A_SCALE == 0 && f & WE_HAVE_AN_X_AND_Y_SCALE != 0
                ==> t.a.0 == i16_at(d, q) && t.d.0 == i16_at(d, q + 2) && t.b.0 == 0 && t.c.0 == 0 && end == q + 4
            &&& f & WE_HAVE_A_SCALE == 0 && f & WE_HAVE_AN_X_AND_Y_SCALE == 0 && f & WE_HAVE_A_TWO_BY_TWO != 0
                ==> t.a.0 == i16_at(d, q) && t.b.0 == i16_at(d, q + 2) && t.c.0 == i16_at(d, q + 4)
                && t.d.0 == i16_at(d, q + 6) && end == q + 8
            &&& f & WE_HAVE_A_SCALE == 0 && f & WE_HAVE_AN_X_AND_Y_SCALE == 0 && f & WE_HAVE_A_TWO_BY_TWO == 0
                ==> t.a.0 == 0x4000 && t.b.0 == 0 && t.c.0 == 0 && t.d.0 == 0x4000 && end == q
        }),
{
}

pub proof fn lemma_component_end(d: Seq<u8>, pos: int)
    ensures
        component_at(d, pos) matches Ok((_, end)) ==> pos < end <= d.len(),
{
}

/// The component records from `pos` on, up to the first without `MORE_COMPONENTS`.
pub open spec fn components_from(d: Seq<u8>, pos: int) -> Result<Seq<UnresolvedComponent>, Error>
    decreases d.len() - pos,
{
    match component_at(d, pos) {
        Err(e) => Err(e),
        Ok((c, end)) => {
            proof {
                lemma_component_end(d, pos);
            }
            if c.flags & MORE_COMPONENTS == 0 {
                Ok(seq![c])
            } else {
                prepend(seq![c], components_from(d, end))
            }
        },
    }
}

/// A component list read at `pos` starts with the component record at `pos`, and every
/// component but the last has the more-components flag, the last one not.
pub proof fn lemma_components_law(d: Seq<u8>, pos: int)
    requires
        components_from(d, pos) is Ok,
    ensures
        ({
            let us = components_from(d, pos)->Ok_0;
            &&& us.len() >= 1
            &&& us[0] == component_at(d, pos)->Ok_0.0
            &&& us[us.len() - 1].flags & MORE_COMPONENTS == 0
            &&& forall|k: int| 0 <= k < us.len() - 1 ==> #[trigger] us[k].flags & MORE_COMPONENTS != 0
        }),
    decreases d.len() - pos,
{
    let (c, end) = component_at(d, pos)->Ok_0;
    lemma_component_end(d, pos);
    if c.flags & MORE_COMPONENTS != 0 {
        lemma_components_law(d, end);
        let rest = components_from(d, end)->Ok_0;
        let us = components_from(d, pos)->Ok_0;
        assert(us == seq![c] + rest);
        assert forall|k: int| 0 <= k < us.len() - 1 implies #[trigger] us[k].flags & MORE_COMPONENTS != 0 by {
            if k > 0 {
                assert(us[k] == rest[k - 1]);
            }
        }
        assert(us[us.len() - 1] == rest[rest.len() - 1]);
    }
}

/// Where reading the component list at `pos` leaves the cursor: after the component
/// without the more-components flag, or at `pos` when a component cannot be read.
pub open spec fn components_end(d: Seq<u8>, pos: int) -> int
    decreases d.len() - pos,
{
    match component_at(d, pos) {
        Err(_) => pos,
        Ok((c, end)) => {
            proof {
                lemma_component_end(d, pos);
            }
            if c.flags & MORE_COMPONENTS == 0 {
                end
            } else {
                components_end(d, end)
            }
        },
    }
}

/// A component of a composite glyph with the glyph it places.
#[derive(Debug)]
pub struct Component {
    pub flags: u16,
    pub gid: u16,
    pub reference: Arc<Glyph>,
    pub transform_data: Transform,
}

/// A glyph made of other glyphs.
#[derive(Debug)]
pub struct CompositeGlyph {
    pub components: Vec<Component>,
    pub header: GlyphHeader,
}

/// A glyph description.
#[derive(Debug)]
pub enum Glyph {
    Simple(SimpleGlyph),
    Composite(CompositeGlyph),
}

impl Glyph {
    pub open spec fn spec_header(&self) -> GlyphHeader {
        match *self {
            Glyph::Simple(s) => s.header,
            Glyph::Composite(c) => c.header,
        }
    }

    pub fn get_header(&self) -> (h: &GlyphHeader)
        ensures
            *h == self.spec_header(),
    {
        match self {
            Glyph::Simple(simple) => &simple.header,
            Glyph::Composite(composite) => &composite.header,
        }
    }
}

/// The ten-byte glyph header at `q`.
pub open spec fn glyph_header_at(d: Seq<u8>, q: int) -> GlyphHeader {
    GlyphHeader {
        contour_count: i16_at(d, q),
        x_min: i16_at(d, q + 2),
        y_min: i16_at(d, q + 4),
        x_max: i16_at(d, q + 6),
        y_max: i16_at(d, q + 8),
    }
}

/// Where the description of glyph `gid` starts.
pub open spec fn glyph_pos(offsets: Seq<u32>, local: int, gid: int) -> int {
    offsets[gid] + local
}

/// Whether `g` is the glyph that the data describes for `gid`: a header, then either a
/// simple description with its contours or component records whose glyphs are, in
/// turn, described by the data.
pub open spec fn glyph_matches(d: Seq<u8>, offsets: Seq<u32>, local: int, gid: int, g: Glyph) -> bool
    decreases g,
{
    let q = glyph_pos(offsets, local, gid);
    &&& 0 <= gid < offsets.len()
    &&& q <= d.len()
    &&& fits(d, q, 10)
    &&& g.spec_header() == glyph_header_at(d, q)
    &&& match g {
        Glyph::Simple(s) => s.header.contour_count >= 0
            && simple_contours(d, q + 10, s.header.contour_count as int) == Ok::<Seq<Seq<BezierTypes>>, Error>(contours_view(s.contours@)),
        Glyph::Composite(c) => c.header.contour_count < 0 && components_from(d, q + 10) is Ok
            && c.components@.len() == (components_from(d, q + 10)->Ok_0).len()
            && forall|i: int| #![trigger c.components@[i]] 0 <= i < c.components@.len() ==> {
                let u = (components_from(d, q + 10)->Ok_0)[i];
                let comp = c.components@[i];
                &&& comp.flags == u.flags
                &&& comp.gid == u.gid
                &&& comp.transform_data == u.transform
                &&& glyph_matches(d, offsets, local, u.gid as int, *comp.reference)
            },
    }
}

/// Whether glyph `g` nests at most `n` levels deep: it counts as one level, and the glyphs
/// its components place as one level fewer.
pub open spec fn shallow(g: Glyph, n: nat) -> bool
    decreases g,
{
    &&& n > 0
    &&& match g {
        Glyph::Simple(_) => true,
        Glyph::Composite(c) => forall|i: int| #![trigger c.components@[i]] 0 <= i < c.components@.len()
            ==> shallow(*c.components@[i].reference, (n - 1) as nat),
    }
}

/// A glyph that nests at most `n` levels deep nests at most `m` deep for any `m` from `n` on.
pub proof fn lemma_shallow_mono(g: Glyph, n: nat, m: nat)
    requires
        shallow(g, n),
        n <= m,
    ensures
        shallow(g, m),
    decreases g,
{
    if let Glyph::Composite(c) = g {
        assert forall|i: int| #![trigger c.components@[i]] 0 <= i < c.components@.len()
            implies shallow(*c.components@[i].reference, (m - 1) as nat) by {
            lemma_shallow_mono(*c.components@[i].reference, (n - 1) as nat, (m - 1) as nat);
        }
    }
}

/// Two glyphs that the data describes for the same glyph index nest equally deep.
pub proof fn lemma_shallow_same(d: Seq<u8>, offs: Seq<u32>, local: int, gid: int, g1: Glyph, g2: Glyph, n: nat)
    requires
        glyph_matches(d, offs, local, gid, g1),
        glyph_matches(d, offs, local, gid, g2),
    ensures
        shallow(g1, n) <==> shallow(g2, n),
    decreases g1,
{
    let q = glyph_pos(offs, local, gid);
    if let Glyph::Composite(c1) = g1 {
        assert(g2 is Composite);
        let c2 = g2->Composite_0;
        let us = components_from(d, q + 10)->Ok_0;
        if n > 0 {
            assert forall|i: int| 0 <= i < c1.components@.len() implies
                (shallow(*c1.components@[i].reference, (n - 1) as nat)
                    <==> shallow(*c2.components@[i].reference, (n - 1) as nat)) by {
                assert(glyph_matches(d, offs, local, us[i].gid as int, *c1.components@[i].reference));
                assert(glyph_matches(d, offs, local, us[i].gid as int, *c2.components@[i].reference));
                lemma_shallow_same(d, offs, local, us[i].gid as int, *c1.components@[i].reference,
                    *c2.components@[i].reference, (n - 1) as nat);
            }
            if shallow(g1, n) {
                assert forall|i: int| #![trigger c2.components@[i]] 0 <= i < c2.components@.len()
                    implies shallow(*c2.components@[i].reference, (n - 1) as nat) by {
                    assert(shallow(*c1.components@[i].reference, (n - 1) as nat));
                }
            }
            if shallow(g2, n) {
                assert forall|i: int| #![trigger c1.components@[i]] 0 <= i < c1.components@.len()
                    implies shallow(*c1.components@[i].reference, (n - 1) as nat) by {
                    assert(shallow(*c2.components@[i].reference, (n - 1) as nat));
                }
            }
        }
    } else {
        assert(g2 is Simple);
    }
}

/// A depth at which glyph `g` is shallow as far as its first `k` components go.
proof fn lemma_depth(g: Glyph, k: int) -> (n: nat)
    requires
        0 <= k,
    ensures
        n > 0,
        g matches Glyph::Composite(c) ==> forall|i: int| #![trigger c.components@[i]] 0 <= i < k && i < c.components@.len()
            ==> shallow(*c.components@[i].reference, (n - 1) as nat),
    decreases g, k,
{
    match g {
        Glyph::Simple(_) => 1,
        Glyph::Composite(c) => {
            let len = c.components@.len() as int;
            if k > len {
                lemma_depth(g, len)
            } else if k == 0 {
                1
            } else {
                let n1 = lemma_depth(g, k - 1);
                let child = *c.components@[k - 1].reference;
                let kc: int = match child {
                    Glyph::Composite(cc) => cc.components@.len() as int,
                    Glyph::Simple(_) => 0,
                };
                let nc = lemma_depth(child, kc);
                assert(shallow(child, nc));
                let n: nat = if n1 > nc + 1 { n1 } else { nc + 1 };
                assert forall|i: int| #![trigger c.components@[i]] 0 <= i < k && i < c.components@.len()
                    implies shallow(*c.components@[i].reference, (n - 1) as nat) by {
                    if i < k - 1 {
                        lemma_shallow_mono(*c.components@[i].reference, (n1 - 1) as nat, (n - 1) as nat);
                    } else {
                        lemma_shallow_mono(child, nc, (n - 1) as nat);
                    }
                }
                n
            }
        },
    }
}

/// Every glyph nests only finitely deep.
pub proof fn lemma_some_depth(g: Glyph) -> (n: nat)
    ensures
        shallow(g, n),
{
    let k: int = match g {
        Glyph::Composite(c) => c.components@.len() as int,
        Glyph::Simple(_) => 0,
    };
    lemma_depth(g, k)
}

/// Whether glyph `g` nests exactly `h` levels deep.
pub open spec fn exact_depth(g: Glyph, h: nat) -> bool {
    h >= 1 && shallow(g, h) && !shallow(g, (h - 1) as nat)
}

/// A glyph shallow at `n` nests exactly some depth from 1 to `n`.
pub proof fn lemma_exact_exists(g: Glyph, n: nat)
    requires
        shallow(g, n),
    ensures
        exists|h: nat| 1 <= h <= n && #[trigger] exact_depth(g, h),
    decreases n,
{
    if shallow(g, (n - 1) as nat) {
        lemma_exact_exists(g, (n - 1) as nat);
    } else {
        assert(exact_depth(g, n));
    }
}

/// A glyph nests exactly one depth.
pub proof fn lemma_exact_unique(g: Glyph, h1: nat, h2: nat)
    requires
        exact_depth(g, h1),
        exact_depth(g, h2),
    ensures
        h1 == h2,
{
    if h1 < h2 {
        lemma_shallow_mono(g, h1, (h2 - 1) as nat);
    } else if h2 < h1 {
        lemma_shallow_mono(g, h2, (h1 - 1) as nat);
    }
}

/// Whether the data describes for glyph `x` a glyph that nests exactly `j` deep.
pub open spec fn has_depth(d: Seq<u8>, offs: Seq<u32>, local: int, x: int, j: nat) -> bool {
    exists|g: Glyph| glyph_matches(d, offs, local, x, g) && #[trigger] exact_depth(g, j)
}

/// Whether some glyph index has a description that nests exactly `j` deep.
pub open spec fn depth_taken(d: Seq<u8>, offs: Seq<u32>, local: int, j: nat) -> bool {
    exists|x: int| 0 <= x < offs.len() && #[trigger] has_depth(d, offs, local, x, j)
}

/// Below a glyph that nests exactly `h` deep, every depth from 1 to `h` is taken by the
/// glyph of some index.
pub proof fn lemma_depths_below(d: Seq<u8>, offs: Seq<u32>, local: int, gid: int, g: Glyph, h: nat)
    requires
        glyph_matches(d, offs, local, gid, g),
        exact_depth(g, h),
    ensures
        forall|j: nat| 1 <= j <= h ==> #[trigger] depth_taken(d, offs, local, j),
    decreases g,
{
    assert(has_depth(d, offs, local, gid, h));
    assert(depth_taken(d, offs, local, h));
    if h >= 2 {
        assert(g is Composite);
        let c = g->Composite_0;
        let q = glyph_pos(offs, local, gid);
        let us = components_from(d, q + 10)->Ok_0;
        let i = choose|i: int| 0 <= i < c.components@.len() && !shallow(#[trigger] *c.components@[i].reference, (h - 2) as nat);
        let child = *c.components@[i].reference;
        assert(shallow(child, (h - 1) as nat));
        assert(exact_depth(child, (h - 1) as nat));
        assert(glyph_matches(d, offs, local, us[i].gid as int, child));
        lemma_depths_below(d, offs, local, us[i].gid as int, child, (h - 1) as nat);
    }
}

/// Every glyph that the data describes nests no deeper than the number of glyphs: a
/// deeper one would take more depths, one glyph index each, than there are indices.
pub proof fn lemma_matching_is_shallow(d: Seq<u8>, offs: Seq<u32>, local: int, gid: int, g: Glyph)
    requires
        glyph_matches(d, offs, local, gid, g),
    ensures
        shallow(g, offs.len()),
{
    let n0 = lemma_some_depth(g);
    lemma_exact_exists(g, n0);
    let h = choose|h: nat| 1 <= h <= n0 && #[trigger] exact_depth(g, h);
    let big = offs.len() as int;
    if h > big {
        lemma_depths_below(d, offs, local, gid, g, h);
        let f = |x: int| (choose|j: nat| has_depth(d, offs, local, x, j)) as int;
        let dom = vstd::set_lib::set_int_range(0, big);
        let img = dom.map(f);
        let hs = vstd::set_lib::set_int_range(1, h as int + 1);
        vstd::set_lib::lemma_int_range(0, big);
        vstd::set_lib::lemma_int_range(1, h as int + 1);
        vstd::set_lib::lemma_map_size_bound(dom, img, f);
        assert forall|j: int| #[trigger] hs.contains(j) implies img.contains(j) by {
            assert(depth_taken(d, offs, local, j as nat));
            let x = choose|x: int| 0 <= x < offs.len() && #[trigger] has_depth(d, offs, local, x, j as nat);
            let j2 = choose|j2: nat| has_depth(d, offs, local, x, j2);
            let g1 = choose|g1: Glyph| glyph_matches(d, offs, local, x, g1) && #[trigger] exact_depth(g1, j as nat);
            let g2 = choose|g2: Glyph| glyph_matches(d, offs, local, x, g2) && #[trigger] exact_depth(g2, j2);
            lemma_shallow_same(d, offs, local, x, g1, g2, j2);
            lemma_shallow_same(d, offs, local, x, g1, g2, (j2 - 1) as nat);
            lemma_exact_unique(g1, j as nat, j2);
            assert(dom.contains(x) && f(x) == j);
        }
        vstd::set_lib::lemma_len_subset(hs, img);
    }
    lemma_shallow_mono(g, h, offs.len());
}

broadcast use vstd::std_specs::hash::group_hash_axioms;

/// Shares the glyph that `a` points to.
#[verifier::external_body]
fn clone_arc(a: &Arc<Glyph>) -> (r: Arc<Glyph>)
    ensures
        r == *a,
{
    Arc::clone(a)
}

impl UnresolvedComponent {
    /// The component with the glyph it places.
    pub fn resolve(self, reference: Arc<Glyph>) -> (c: Component)
        ensures
            c.flags == self.flags,
            c.gid == self.gid,
            c.transform_data == self.transform,
            c.reference == reference,
    {
        Component { flags: self.flags, gid: self.gid, reference: reference, transform_data: self.transform }
    }
}

/// The glyph table, with the glyphs parsed so far.
#[derive(Debug)]
pub struct Glyf {
    offsets: Vec<u32>,
    glyph_cache: HashMap<GlyphId, Arc<Glyph>>,
    local_offset: usize,
}

impl Glyf {
    /// The glyph offsets from the `loca` table.
    pub closed spec fn spec_offsets(&self) -> Seq<u32> {
        self.offsets@
    }

    /// Where the `glyf` table starts.
    pub closed spec fn spec_local_offset(&self) -> int {
        self.local_offset as int
    }

    /// The glyphs parsed so far.
    pub closed spec fn spec_cache(&self) -> Map<GlyphId, Arc<Glyph>> {
        self.glyph_cache@
    }

    /// Whether every glyph parsed so far is the glyph the data `d` describes.
    pub open spec fn consistent_with(&self, d: Seq<u8>) -> bool {
        forall|k: GlyphId| #[trigger] self.spec_cache().contains_key(k) ==> glyph_matches(
            d,
            self.spec_offsets(),
            self.spec_local_offset(),
            k as int,
            *self.spec_cache()[k],
        )
    }

    /// Whether `self` is `old` with possibly more glyphs parsed.
    pub open spec fn extends(&self, old: Glyf) -> bool {
        &&& self.spec_offsets() == old.spec_offsets()
        &&& self.spec_local_offset() == old.spec_local_offset()
        &&& forall|k: GlyphId| #[trigger] old.spec_cache().contains_key(k) ==> self.spec_cache().contains_key(k)
            && self.spec_cache()[k] == old.spec_cache()[k]
    }

    /// The glyph table over the glyph `offsets`, starting where the directory puts `glyf`.
    pub fn new(offsets: Vec<u32>, record: &TableDirectory) -> (g: Self)
        requires
            record@.contains_key(GLYF),
        ensures
            g.spec_offsets() == offsets@,
            g.spec_local_offset() == record@[GLYF].table_offset,
            g.spec_cache() == Map::<GlyphId, Arc<Glyph>>::empty(),
    {
        let local_offset = match find_table(record, GLYF, "glyf") {
            Ok(rec) => rec.table_offset,
            Err(_) => 0,
        };
        let g = Self { offsets, glyph_cache: HashMap::new(), local_offset };
        assert(g.spec_cache() =~= Map::<GlyphId, Arc<Glyph>>::empty());
        g
    }

    /// The parsed glyph `gid`, if it was parsed.
    pub fn get_glyf(&self, gid: GlyphId) -> (r: Option<&Arc<Glyph>>)
        ensures
            match r {
                Some(g) => self.spec_cache().contains_key(gid) && *g == self.spec_cache()[gid],
                None => !self.spec_cache().contains_key(gid),
            },
    {
        self.glyph_cache.get(&gid)
    }

    /// The parsed glyph `gid`, if it was parsed.
    pub fn get_glyph(&mut self, gid: GlyphId) -> (r: Option<&Arc<Glyph>>)
        ensures
            *final(self) == *old(self),
            match r {
                Some(g) => old(self).spec_cache().contains_key(gid) && *g == old(self).spec_cache()[gid],
                None => !old(self).spec_cache().contains_key(gid),
            },
    {
        self.glyph_cache.get(&gid)
    }

    /// Reads the matrix of a component with `flags`.
    pub fn parse_transform(&self, cursor: &mut Cursor, flags: u16) -> (r: Result<Transform, Error>)
        ensures
            final(cursor).data@ == old(cursor).data@,
            match (r, transform_at(old(cursor).data@, old(cursor).pos as int, flags)) {
                (Ok(t), Ok((s, end))) => t == s && final(cursor).pos == end,
                (Err(e), Err(f)) => e == f,
                _ => false,
            },
    {
        let mut transform = Transform::identity();
        if flags & WE_HAVE_A_SCALE != 0 {
            let scale = cursor.read_f2dot14()?;
            transform.a = scale;
            transform.d = scale;
        } else if flags & WE_HAVE_AN_X_AND_Y_SCALE != 0 {
            cursor.require(4)?;
            transform.a = cursor.read_f2dot14()?;
            transform.d = cursor.read_f2dot14()?;
        } else if flags & WE_HAVE_A_TWO_BY_TWO != 0 {
            cursor.require(8)?;
            transform.a = cursor.read_f2dot14()?;
            transform.b = cursor.read_f2dot14()?;
            transform.c = cursor.read_f2dot14()?;
            transform.d = cursor.read_f2dot14()?;
        }
        Ok(transform)
    }

    /// Reads the two arguments of a component with `flags`.
    pub fn parse_args(&self, cursor: &mut Cursor, flags: u16) -> (r: Result<(i32, i32), Error>)
        ensures
            final(cursor).data@ == old(cursor).data@,
            match (r, args_at(old(cursor).data@, old(cursor).pos as int, flags)) {
                (Ok((a, b)), Ok((sa, sb, end))) => a == sa && b == sb && final(cursor).pos == end,
                (Err(e), Err(f)) => e == f,
                _ => false,
            },
    {
        if flags & ARG_1_AND_2_ARE_WORDS != 0 {
            cursor.require(4)?;
            let a = cursor.read_i16()? as i32;
            let b = cursor.read_i16()? as i32;
            Ok((a, b))
        } else if flags & ARGS_ARE_XY_VALUES != 0 {
            cursor.require(2)?;
            let a = cursor.read_i8()? as i32;
            let b = cursor.read_i8()? as i32;
            Ok((a, b))
        } else {
            cursor.require(2)?;
            let a = cursor.read_u8()? as i32;
            let b = cursor.read_u8()? as i32;
            Ok((a, b))
        }
    }

    /// Reads the component records of a composite glyph.
    pub fn parse_components(&self, cursor: &mut Cursor) -> (r: Result<Vec<UnresolvedComponent>, Error>)
        ensures
            final(cursor).data@ == old(cursor).data@,
            match (r, components_from(old(cursor).data@, old(cursor).pos as int)) {
                (Ok(v), Ok(s)) => v@ == s && final(cursor).pos == components_end(old(cursor).data@, old(cursor).pos as int),
                (Err(e), Err(f)) => e == f,
                _ => false,
            },
    {
        let ghost d = cursor.data@;
        let ghost p = cursor.pos as int;
        let mut components: Vec<UnresolvedComponent> = Vec::new();
        loop
            invariant
                cursor.data@ == d,
                d == old(cursor).data@,
                p == old(cursor).pos,
                components_from(d, p) == prepend(components@, components_from(d, cursor.pos as int)),
                components_end(d, p) == components_end(d, cursor.pos as int),
            decreases d.len() - cursor.pos,
        {
            let ghost q = cursor.pos as int;
            let ghost before = components@;
            proof {
                lemma_component_end(d, q);
            }
            cursor.require(4)?;
            let flags = cursor.read_u16()?;
            let gid = cursor.read_u16()?;
            let (arg1, arg2) = self.parse_args(cursor, flags)?;
            let mut transform = self.parse_transform(cursor, flags)?;
            transform.dx = arg1;
            transform.dy = arg2;
            let c = UnresolvedComponent { flags, gid, transform };
            components.push(c);
            assert(component_at(d, q) == Ok::<(UnresolvedComponent, int), Error>((c, cursor.pos as int)));
            if flags & MORE_COMPONENTS == 0 {
                assert(components@ =~= before + seq![c]);
                return Ok(components);
            }
            proof {
                match components_from(d, cursor.pos as int) {
                    Ok(rest) => {
                        assert(before + (seq![c] + rest) =~= components@ + rest);
                    },
                    Err(_) => {},
                }
            }
        }
    }

    /// Parses glyph `gid` into the cache, with the glyphs its components place, unless
    /// it is there already, in which case the cursor does not move. The cursor reads the
    /// font data; the glyph is the one that data describes. It succeeds exactly when the
    /// data describes a glyph for `gid`; a component that refers back to a glyph that
    /// contains it describes none, and nesting deeper than the number of glyphs is refused.
    pub fn parse_glyf_block(&mut self, gid: GlyphId, cursor: &mut Cursor) -> (r: Result<(), Error>)
        requires
            gid < old(self).spec_offsets().len(),
            old(self).consistent_with(old(cursor).data@),
        ensures
            final(cursor).data@ == old(cursor).data@,
            final(self).extends(*old(self)),
            final(self).consistent_with(old(cursor).data@),
            r is Ok ==> final(self).spec_cache().contains_key(gid),
            r is Ok ==> glyph_matches(old(cursor).data@, old(self).spec_offsets(), old(self).spec_local_offset(),
                gid as int, *final(self).spec_cache()[gid]),
            old(self).spec_cache().contains_key(gid) ==> r is Ok && final(self).spec_cache() == old(self).spec_cache(),
            old(self).spec_cache().contains_key(gid) ==> final(cursor).pos == old(cursor).pos,
            r is Ok <==> exists|g: Glyph| glyph_matches(old(cursor).data@, old(self).spec_offsets(),
                old(self).spec_local_offset(), gid as int, g),
    {
        let ghost d = cursor.data@;
        let ghost offs = self.spec_offsets();
        let ghost local = self.spec_local_offset();
        let limit = self.offsets.len();
        proof {
            if exists|g: Glyph| glyph_matches(d, offs, local, gid as int, g) {
                let g = choose|g: Glyph| glyph_matches(d, offs, local, gid as int, g);
                lemma_matching_is_shallow(d, offs, local, gid as int, g);
            }
        }
        let r = self.parse_block(gid, cursor, 0, limit);
        proof {
            if r is Ok {
                assert(self.spec_cache().contains_key(gid));
                assert(glyph_matches(d, offs, local, gid as int, *self.spec_cache()[gid]));
            }
        }
        r
    }

    fn parse_block(&mut self, gid: GlyphId, cursor: &mut Cursor, depth: usize, limit: usize) -> (r: Result<(), Error>)
        requires
            limit == old(self).spec_offsets().len(),
            depth <= limit,
            old(self).consistent_with(old(cursor).data@),
        ensures
            final(cursor).data@ == old(cursor).data@,
            final(self).extends(*old(self)),
            final(self).consistent_with(old(cursor).data@),
            r is Ok ==> final(self).spec_cache().contains_key(gid),
            old(self).spec_cache().contains_key(gid) ==> r is Ok && final(self).spec_cache() == old(self).spec_cache(),
            old(self).spec_cache().contains_key(gid) ==> final(cursor).pos == old(cursor).pos,
            r matches Err(e) ==> e == Error::InvalidFormat("component nesting")
                || forall|g: Glyph| !glyph_matches(old(cursor).data@, old(self).spec_offsets(),
                    old(self).spec_local_offset(), gid as int, g),
            (exists|g: Glyph| glyph_matches(old(cursor).data@, old(self).spec_offsets(), old(self).spec_local_offset(),
                gid as int, g) && shallow(g, (limit - depth) as nat)) ==> r is Ok,
        decreases limit - depth, 2int,
    {
        let ghost d = cursor.data@;
        let ghost offs = self.spec_offsets();
        let ghost local = self.spec_local_offset();
        if self.glyph_cache.contains_key(&gid) {
            return Ok(());
        }
        if gid as usize >= self.offsets.len() {
            return Err(Error::InvalidFormat("component glyph index"));
        }
        if depth >= limit {
            return Err(Error::InvalidFormat("component nesting"));
        }
        let offset = self.offsets[gid as usize];
        let ghost q = glyph_pos(offs, local, gid as int);
        cursor.seek_rel(offset as usize, self.local_offset)?;
        if cursor.require(10).is_err() {
            return Err(Error::ReadError(ReadError::UnexpectedEof));
        }
        let contour_count = cursor.read_i16()?;
        let x_min = cursor.read_i16()?;
        let y_min = cursor.read_i16()?;
        let x_max = cursor.read_i16()?;
        let y_max = cursor.read_i16()?;
        let glyph_header = GlyphHeader { contour_count, x_min, y_min, x_max, y_max };
        assert(glyph_header == glyph_header_at(d, q));
        let glyph = if contour_count >= 0 {
            let simple = match parse_simple(cursor, glyph_header) {
                Ok(sg) => sg,
                Err(e) => {
                    proof {
                        assert forall|g: Glyph| !glyph_matches(d, offs, local, gid as int, g) by {
                            if glyph_matches(d, offs, local, gid as int, g) {
                                assert(g is Simple);
                            }
                        }
                    }
                    return Err(e);
                },
            };
            Glyph::Simple(simple)
        } else {
            let composite = self.parse_composite(cursor, glyph_header, depth, limit, Ghost(gid))?;
            Glyph::Composite(composite)
        };
        assert(glyph_matches(d, offs, local, gid as int, glyph));
        let ghost mid = *self;
        self.glyph_cache.insert(gid, Arc::new(glyph));
        proof {
            assert forall|k: GlyphId| #[trigger] self.spec_cache().contains_key(k) implies glyph_matches(
                d, self.spec_offsets(), self.spec_local_offset(), k as int, *self.spec_cache()[k]) by {
                if k != gid {
                    assert(mid.spec_cache().contains_key(k));
                }
            }
        }
        Ok(())
    }

    fn parse_composite(
        &mut self,
        cursor: &mut Cursor,
        glyph_header: GlyphHeader,
        depth: usize,
        limit: usize,
        Ghost(gid): Ghost<GlyphId>,
    ) -> (r: Result<CompositeGlyph, Error>)
        requires
            limit == old(self).spec_offsets().len(),
            depth < limit,
            old(self).consistent_with(old(cursor).data@),
            0 <= gid < old(self).spec_offsets().len(),
            glyph_header.contour_count < 0,
            fits(old(cursor).data@, glyph_pos(old(self).spec_offsets(), old(self).spec_local_offset(), gid as int), 10),
            glyph_header == glyph_header_at(old(cursor).data@,
                glyph_pos(old(self).spec_offsets(), old(self).spec_local_offset(), gid as int)),
            old(cursor).pos == glyph_pos(old(self).spec_offsets(), old(self).spec_local_offset(), gid as int) + 10,
        ensures
            final(cursor).data@ == old(cursor).data@,
            final(self).extends(*old(self)),
            final(self).consistent_with(old(cursor).data@),
            r matches Ok(c) ==> glyph_matches(old(cursor).data@, old(self).spec_offsets(),
                old(self).spec_local_offset(), gid as int, Glyph::Composite(c)),
            r matches Err(e) ==> e == Error::InvalidFormat("component nesting")
                || forall|g: Glyph| !glyph_matches(old(cursor).data@, old(self).spec_offsets(),
                    old(self).spec_local_offset(), gid as int, g),
            (exists|g: Glyph| glyph_matches(old(cursor).data@, old(self).spec_offsets(), old(self).spec_local_offset(),
                gid as int, g) && shallow(g, (limit - depth) as nat)) ==> r is Ok,
        decreases limit - depth, 1int,
    {
        let ghost d = cursor.data@;
        let ghost offs = self.spec_offsets();
        let ghost local = self.spec_local_offset();
        let ghost q = glyph_pos(offs, local, gid as int);
        let unresolved = match self.parse_components(cursor) {
            Ok(u) => u,
            Err(e) => {
                proof {
                    assert forall|g: Glyph| !glyph_matches(d, offs, local, gid as int, g) by {
                        if glyph_matches(d, offs, local, gid as int, g) {
                            assert(g is Composite);
                        }
                    }
                }
                return Err(e);
            },
        };
        let ghost us = unresolved@;
        let mut resolved: Vec<Component> = Vec::with_capacity(unresolved.len());
        let mut i: usize = 0;
        while i < unresolved.len()
            invariant
                i <= unresolved.len(),
                us == unresolved@,
                components_from(d, q + 10) == Ok::<Seq<UnresolvedComponent>, Error>(us),
                limit == offs.len(),
                depth < limit,
                0 <= gid < offs.len(),
                glyph_header == glyph_header_at(d, q),
                glyph_header.contour_count < 0,
                fits(d, q, 10),
                q == glyph_pos(offs, local, gid as int),
                q <= d.len(),
                d == old(cursor).data@,
                offs == old(self).spec_offsets(),
                local == old(self).spec_local_offset(),
                cursor.data@ == d,
                self.extends(*old(self)),
                self.consistent_with(d),
                resolved@.len() == i,
                forall|j: int| #![trigger resolved@[j]] 0 <= j < i ==> {
                    &&& resolved@[j].flags == us[j].flags
                    &&& resolved@[j].gid == us[j].gid
                    &&& resolved@[j].transform_data == us[j].transform
                    &&& glyph_matches(d, offs, local, us[j].gid as int, *resolved@[j].reference)
                },
            decreases unresolved.len() - i,
        {
            let u = unresolved[i];
            let c = match self.resolve_component(u, cursor, depth, limit) {
                Ok(c) => c,
                Err(e) => {
                    proof {
                        if exists|g: Glyph| glyph_matches(d, offs, local, gid as int, g) && shallow(g, (limit - depth) as nat) {
                            let g = choose|g: Glyph| glyph_matches(d, offs, local, gid as int, g) && shallow(g, (limit - depth) as nat);
                            assert(g is Composite);
                            let cg = g->Composite_0;
                            let rg = *cg.components@[i as int].reference;
                            assert(glyph_matches(d, offs, local, us[i as int].gid as int, rg));
                            assert(shallow(rg, (limit - depth - 1) as nat));
                        }
                        if e != Error::InvalidFormat("component nesting") {
                            assert forall|g: Glyph| !glyph_matches(d, offs, local, gid as int, g) by {
                                if glyph_matches(d, offs, local, gid as int, g) {
                                    assert(g is Composite);
                                    let cg = g->Composite_0;
                                    assert(glyph_matches(d, offs, local, us[i as int].gid as int,
                                        *cg.components@[i as int].reference));
                                }
                            }
                        }
                    }
                    return Err(e);
                },
            };
            resolved.push(c);
            i = i + 1;
        }
        let composite = CompositeGlyph { header: glyph_header, components: resolved };
        assert(glyph_matches(d, offs, local, gid as int, Glyph::Composite(composite)));
        Ok(composite)
    }

    fn resolve_component(&mut self, component: UnresolvedComponent, cursor: &mut Cursor, depth: usize, limit: usize)
        -> (r: Result<Component, Error>)
        requires
            limit == old(self).spec_offsets().len(),
            depth < limit,
            old(self).consistent_with(old(cursor).data@),
        ensures
            final(cursor).data@ == old(cursor).data@,
            final(self).extends(*old(self)),
            final(self).consistent_with(old(cursor).data@),
            r matches Ok(c) ==> c.flags == component.flags && c.gid == component.gid
                && c.transform_data == component.transform
                && glyph_matches(old(cursor).data@, old(self).spec_offsets(), old(self).spec_local_offset(),
                    component.gid as int, *c.reference),
            r matches Err(e) ==> e == Error::InvalidFormat("component nesting")
                || forall|g: Glyph| !glyph_matches(old(cursor).data@, old(self).spec_offsets(),
                    old(self).spec_local_offset(), component.gid as int, g),
            (exists|g: Glyph| glyph_matches(old(cursor).data@, old(self).spec_offsets(), old(self).spec_local_offset(),
                component.gid as int, g) && shallow(g, (limit - depth - 1) as nat)) ==> r is Ok,
        decreases limit - depth, 0int,
    {
        if !self.glyph_cache.contains_key(&component.gid) {
            self.parse_block(component.gid, cursor, depth + 1, limit)?;
        }
        match self.glyph_cache.get(&component.gid) {
            Some(item) => {
                assert(self.spec_cache().contains_key(component.gid));
                let reference = clone_arc(item);
                Ok(component.resolve(reference))
            },
            None => Err(Error::Unknown),
        }
    }
}

} // verus!
