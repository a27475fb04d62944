use vstd::prelude::*;
use crate::math::lalg::Vec2;

verus! {

/// The color of an edge: a set of the red (1), green (2) and blue (4) channels.
#[allow(non_camel_case_types)]
#[derive(Debug, Clone, Copy, PartialEq, Eq, Structural)]
pub enum EdgeColor {
    BLACK,
    RED,
    GREEN,
    YELLOW,
    BLUE,
    MAGENTA,
    CYAN,
    WHITE,
}

/// The channel bits of a color.
pub open spec fn color_bits(c: EdgeColor) -> u8 {
    match c {
        EdgeColor::BLACK => 0,
        EdgeColor::RED => 1,
        EdgeColor::GREEN => 2,
        EdgeColor::YELLOW => 3,
        EdgeColor::BLUE => 4,
        EdgeColor::MAGENTA => 5,
        EdgeColor::CYAN => 6,
        EdgeColor::WHITE => 7,
    }
}

/// The color whose channel bits are `value`; black for a value past 7.
pub open spec fn color_of(value: u8) -> EdgeColor {
    if value == 1 {
        EdgeColor::RED
    } else if value == 2 {
        EdgeColor::GREEN
    } else if value == 3 {
        EdgeColor::YELLOW
    } else if value == 4 {
        EdgeColor::BLUE
    } else if value == 5 {
        EdgeColor::MAGENTA
    } else if value == 6 {
        EdgeColor::CYAN
    } else if value == 7 {
        EdgeColor::WHITE
    } else {
        EdgeColor::BLACK
    }
}

/// A color comes back from its channel bits.
pub proof fn lemma_color_round_trip(c: EdgeColor)
    ensures
        color_of(color_bits(c)) == c,
{
}

/// The name a color is shown by.
pub open spec fn color_name(c: EdgeColor) -> &'static str {
    match c {
        EdgeColor::BLACK => "BLACK",
        EdgeColor::RED => "RED",
        EdgeColor::GREEN => "GREEN",
        EdgeColor::YELLOW => "YELLOW",
        EdgeColor::BLUE => "BLUE",
        EdgeColor::MAGENTA => "MAGENTA",
        EdgeColor::CYAN => "CYAN",
        EdgeColor::WHITE => "WHITE",
    }
}

impl EdgeColor {
    /// The name the color is shown by.
    pub fn name(&self) -> (s: &'static str)
        ensures
            s == color_name(*self),
    {
        match self {
            EdgeColor::BLACK => "BLACK",
            EdgeColor::RED => "RED",
            EdgeColor::GREEN => "GREEN",
            EdgeColor::YELLOW => "YELLOW",
            EdgeColor::BLUE => "BLUE",
            EdgeColor::MAGENTA => "MAGENTA",
            EdgeColor::CYAN => "CYAN",
            EdgeColor::WHITE => "WHITE",
        }
    }

    /// The channel bits of the color.
    pub fn bits(&self) -> (b: u8)
        ensures
            b == color_bits(*self),
    {
        match self {
            EdgeColor::BLACK => 0,
            EdgeColor::RED => 1,
            EdgeColor::GREEN => 2,
            EdgeColor::YELLOW => 3,
            EdgeColor::BLUE => 4,
            EdgeColor::MAGENTA => 5,
            EdgeColor::CYAN => 6,
            EdgeColor::WHITE => 7,
        }
    }

    /// The color whose channel bits are `value`; black for a value past 7.
    pub fn from_u8(value: u8) -> (c: EdgeColor)
        ensures
            c == color_of(value),
            value <= 7 ==> color_bits(c) == value,
    {
        if value == 1 {
            EdgeColor::RED
        } else if value == 2 {
            EdgeColor::GREEN
        } else if value == 3 {
            EdgeColor::YELLOW
        } else if value == 4 {
            EdgeColor::BLUE
        } else if value == 5 {
            EdgeColor::MAGENTA
        } else if value == 6 {
            EdgeColor::CYAN
        } else if value == 7 {
            EdgeColor::WHITE
        } else {
            EdgeColor::BLACK
        }
    }
}

impl From<u8> for EdgeColor {
    fn from(value: u8) -> (c: EdgeColor) {
        EdgeColor::from_u8(value)
    }
}

impl vstd::std_specs::convert::FromSpecImpl<u8> for EdgeColor {
    open spec fn obeys_from_spec() -> bool {
        true
    }

    open spec fn from_spec(value: u8) -> EdgeColor {
        color_of(value)
    }
}

/// A straight segment from `p[0]` to `p[1]`.
#[derive(Clone, Copy, Debug)]
pub struct LinearBezier {
    pub color: EdgeColor,
    pub p: [Vec2; 2],
}

/// A quadratic curve from `p[0]` to `p[2]` with control point `p[1]`.
#[derive(Clone, Copy, Debug)]
pub struct QuadraticBezier {
    pub color: EdgeColor,
    pub p: [Vec2; 3],
}

/// A cubic curve from `p[0]` to `p[3]` with control points `p[1]` and `p[2]`.
#[derive(Clone, Copy, Debug)]
pub struct CubicBezier {
    pub color: EdgeColor,
    pub p: [Vec2; 4],
}

/// An edge of a contour.
#[derive(Clone, Copy, Debug)]
pub enum BezierTypes {
    Linear(LinearBezier),
    Quadratic(QuadraticBezier),
    Cubic(CubicBezier),
}

impl LinearBezier {
    pub fn new(p0: Vec2, p1: Vec2, color: EdgeColor) -> (b: Self)
        ensures
            b.p@ == seq![p0, p1],
            b.color == color,
    {
        let b = Self { p: [p0, p1], color };
        assert(b.p@ =~= seq![p0, p1]);
        b
    }

    /// Swaps the ends.
    pub fn reverse(&mut self)
        ensures
            final(self).p@ == seq![old(self).p@[1], old(self).p@[0]],
            final(self).color == old(self).color,
    {
        let p0 = self.p[0];
        let p1 = self.p[1];
        self.p = [p1, p0];
        assert(self.p@ =~= seq![p1, p0]);
    }

    /// Moves the start point.
    pub fn move_start(&mut self, to: Vec2)
        ensures
            final(self).p@ == seq![to, old(self).p@[1]],
            final(self).color == old(self).color,
    {
        let p1 = self.p[1];
        self.p = [to, p1];
        assert(self.p@ =~= seq![to, p1]);
    }

    /// Moves the end point.
    pub fn move_end(&mut self, to: Vec2)
        ensures
            final(self).p@ == seq![old(self).p@[0], to],
            final(self).color == old(self).color,
    {
        let p0 = self.p[0];
        self.p = [p0, to];
        assert(self.p@ =~= seq![p0, to]);
    }
}

impl QuadraticBezier {
    pub fn new(p0: Vec2, p1: Vec2, p2: Vec2, color: EdgeColor) -> (b: Self)
        ensures
            b.p@ == seq![p0, p1, p2],
            b.color == color,
    {
        let b = Self { p: [p0, p1, p2], color };
        assert(b.p@ =~= seq![p0, p1, p2]);
        b
    }

    /// Swaps the ends; the control point stays.
    pub fn reverse(&mut self)
        ensures
            final(self).p@ == seq![old(self).p@[2], old(self).p@[1], old(self).p@[0]],
            final(self).color == old(self).color,
    {
        let p0 = self.p[0];
        let p1 = self.p[1];
        let p2 = self.p[2];
        self.p = [p2, p1, p0];
        assert(self.p@ =~= seq![p2, p1, p0]);
    }
}

impl CubicBezier {
    pub fn new(p0: Vec2, p1: Vec2, p2: Vec2, p3: Vec2, color: EdgeColor) -> (b: Self)
        ensures
            b.p@ == seq![p0, p1, p2, p3],
            b.color == color,
    {
        let b = Self { p: [p0, p1, p2, p3], color };
        assert(b.p@ =~= seq![p0, p1, p2, p3]);
        b
    }

    /// Reverses the order of the four points.
    pub fn reverse(&mut self)
        ensures
            final(self).p@ == seq![old(self).p@[3], old(self).p@[2], old(self).p@[1], old(self).p@[0]],
            final(self).color == old(self).color,
    {
        let p0 = self.p[0];
        let p1 = self.p[1];
        let p2 = self.p[2];
        let p3 = self.p[3];
        self.p = [p3, p2, p1, p0];
        assert(self.p@ =~= seq![p3, p2, p1, p0]);
    }

    /// Moves the start point, and the first control point by the same amount.
    pub fn move_start(&mut self, to: Vec2)
        requires
            i32::MIN <= old(self).p@[1].x + (to.x - old(self).p@[0].x) <= i32::MAX,
            i32::MIN <= old(self).p@[1].y + (to.y - old(self).p@[0].y) <= i32::MAX,
        ensures
            final(self).p@ == seq![
                to,
                Vec2 {
                    x: (old(self).p@[1].x + (to.x - old(self).p@[0].x)) as i32,
                    y: (old(self).p@[1].y + (to.y - old(self).p@[0].y)) as i32,
                },
                old(self).p@[2],
                old(self).p@[3],
            ],
            final(self).color == old(self).color,
    {
        let p0 = self.p[0];
        let p1 = self.p[1];
        let p2 = self.p[2];
        let p3 = self.p[3];
        let q1 = Vec2 {
            x: (p1.x as i64 + (to.x as i64 - p0.x as i64)) as i32,
            y: (p1.y as i64 + (to.y as i64 - p0.y as i64)) as i32,
        };
        self.p = [to, q1, p2, p3];
        assert(self.p@ =~= seq![to, q1, p2, p3]);
    }

    /// Moves the end point, and the last control point by the same amount.
    pub fn move_end(&mut self, to: Vec2)
        requires
            i32::MIN <= old(self).p@[2].x + (to.x - old(self).p@[3].x) <= i32::MAX,
            i32::MIN <= old(self).p@[2].y + (to.y - old(self).p@[3].y) <= i32::MAX,
        ensures
            final(self).p@ == seq![
                old(self).p@[0],
                old(self).p@[1],
                Vec2 {
                    x: (old(self).p@[2].x + (to.x - old(self).p@[3].x)) as i32,
                    y: (old(self).p@[2].y + (to.y - old(self).p@[3].y)) as i32,
                },
                to,
            ],
            final(self).color == old(self).color,
    {
        let p0 = self.p[0];
        let p1 = self.p[1];
        let p2 = self.p[2];
        let p3 = self.p[3];
        let q2 = Vec2 {
            x: (p2.x as i64 + (to.x as i64 - p3.x as i64)) as i32,
            y: (p2.y as i64 + (to.y as i64 - p3.y as i64)) as i32,
        };
        self.p = [p0, p1, q2, to];
        assert(self.p@ =~= seq![p0, p1, q2, to]);
    }
}

/// The control points of an edge, from start to end.
pub open spec fn spec_control_points(b: BezierTypes) -> Seq<Vec2> {
    match b {
        BezierTypes::Linear(l) => l.p@,
        BezierTypes::Quadratic(q) => q.p@,
        BezierTypes::Cubic(c) => c.p@,
    }
}

/// The color of an edge.
pub open spec fn spec_color(b: BezierTypes) -> EdgeColor {
    match b {
        BezierTypes::Linear(l) => l.color,
        BezierTypes::Quadratic(q) => q.color,
        BezierTypes::Cubic(c) => c.color,
    }
}

impl BezierTypes {
    /// 1 for a segment, 2 for a quadratic curve, 3 for a cubic one.
    pub fn degree(&self) -> (d: u64)
        ensures
            d + 1 == spec_control_points(*self).len(),
            d == match *self {
                BezierTypes::Linear(_) => 1u64,
                BezierTypes::Quadratic(_) => 2,
                BezierTypes::Cubic(_) => 3,
            },
    {
        match self {
            BezierTypes::Linear(_) => 1,
            BezierTypes::Quadratic(_) => 2,
            BezierTypes::Cubic(_) => 3,
        }
    }

    pub fn control_points(&self) -> (v: Vec<Vec2>)
        ensures
            v@ == spec_control_points(*self),
    {
        match self {
            BezierTypes::Linear(l) => {
                let v = vec![l.p[0], l.p[1]];
                assert(v@ =~= l.p@);
                v
            },
            BezierTypes::Quadratic(q) => {
                let v = vec![q.p[0], q.p[1], q.p[2]];
                assert(v@ =~= q.p@);
                v
            },
            BezierTypes::Cubic(c) => {
                let v = vec![c.p[0], c.p[1], c.p[2], c.p[3]];
                assert(v@ =~= c.p@);
                v
            },
        }
    }

    pub fn color(&self) -> (c: EdgeColor)
        ensures
            c == spec_color(*self),
    {
        match self {
            BezierTypes::Linear(b) => b.color,
            BezierTypes::Quadratic(b) => b.color,
            BezierTypes::Cubic(b) => b.color,
        }
    }

    pub fn set_color(&mut self, color: EdgeColor)
        ensures
            spec_color(*final(self)) == color,
            spec_control_points(*final(self)) == spec_control_points(*old(self)),
            final(self).degree_spec() == old(self).degree_spec(),
    {
        match self {
            BezierTypes::Linear(b) => b.color = color,
            BezierTypes::Quadratic(b) => b.color = color,
            BezierTypes::Cubic(b) => b.color = color,
        }
    }

    spec fn linear_points(&self) -> Seq<Vec2> {
        match *self {
            BezierTypes::Linear(l) => l.p@,
            _ => Seq::empty(),
        }
    }

    spec fn quadratic_points(&self) -> Seq<Vec2> {
        match *self {
            BezierTypes::Quadratic(l) => l.p@,
            _ => Seq::empty(),
        }
    }

    spec fn cubic_points(&self) -> Seq<Vec2> {
        match *self {
            BezierTypes::Cubic(l) => l.p@,
            _ => Seq::empty(),
        }
    }

    /// 1, 2 or 3 as the edge is a segment, a quadratic or a cubic curve.
    pub open spec fn degree_spec(&self) -> int {
        match *self {
            BezierTypes::Linear(_) => 1,
            BezierTypes::Quadratic(_) => 2,
            BezierTypes::Cubic(_) => 3,
        }
    }

    /// Reverses the direction of the edge: its control points in reverse order.
    pub fn reverse(&mut self)
        ensures
            spec_control_points(*final(self)) == spec_control_points(*old(self)).reverse(),
            spec_color(*final(self)) == spec_color(*old(self)),
            final(self).degree_spec() == old(self).degree_spec(),
    {
        match self {
            BezierTypes::Linear(b) => {
                b.reverse();
                assert(b.p@ =~= old(self).linear_points().reverse());
            },
            BezierTypes::Quadratic(b) => {
                b.reverse();
                assert(b.p@ =~= old(self).quadratic_points().reverse());
            },
            BezierTypes::Cubic(b) => {
                b.reverse();
                assert(b.p@ =~= old(self).cubic_points().reverse());
            },
        }
    }
}

} // verus!
