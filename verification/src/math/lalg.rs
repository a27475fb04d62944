use vstd::prelude::*;

verus! {

/// A point or a vector of the plane with integer coordinates.
#[derive(Debug, Clone, Copy, PartialEq, Eq, Structural)]
pub struct Vec2 {
    pub x: i32,
    pub y: i32,
}

impl Default for Vec2 {
    fn default() -> (v: Vec2)
        ensures
            v == (Vec2 { x: 0, y: 0 }),
    {
        Vec2 { x: 0, y: 0 }
    }
}

impl core::ops::Neg for Vec2 {
    type Output = Vec2;

    fn neg(self) -> (v: Vec2) {
        Vec2 { x: -self.x, y: -self.y }
    }
}

impl vstd::std_specs::ops::NegSpecImpl for Vec2 {
    open spec fn obeys_neg_spec() -> bool {
        true
    }

    open spec fn neg_req(self) -> bool {
        self.x > i32::MIN && self.y > i32::MIN
    }

    open spec fn neg_spec(self) -> Vec2 {
        Vec2 { x: -self.x as i32, y: -self.y as i32 }
    }
}

/// Negating a vector twice gives it back.
pub proof fn lemma_neg_neg(v: Vec2)
    requires
        v.x > i32::MIN,
        v.y > i32::MIN,
    ensures
        (Vec2 { x: -v.x as i32, y: -v.y as i32 }).x > i32::MIN,
        (Vec2 { x: -(-v.x as i32) as i32, y: -(-v.y as i32) as i32 }) == v,
{
}

/// `s / 2` rounded down.
pub fn half(s: i64) -> (r: i64)
    requires
        s > i64::MIN,
    ensures
        r == s as int / 2,
{
    if s >= 0 {
        s / 2
    } else {
        let r = (s - 1) / 2;
        assert(r == s as int / 2) by (nonlinear_arith)
            requires s < 0, r == (s - 1) / 2 + if (s - 1) % 2 != 0 { 1int } else { 0 };
        r
    }
}

/// The point halfway between `a` and `b`, each coordinate rounded down.
pub open spec fn spec_mid(a: Vec2, b: Vec2) -> Vec2 {
    Vec2 { x: ((a.x + b.x) / 2) as i32, y: ((a.y + b.y) / 2) as i32 }
}

impl Vec2 {
    /// The point halfway between `self` and `other`, each coordinate rounded down.
    pub fn mid(self, other: Vec2) -> (r: Vec2)
        ensures
            r == spec_mid(self, other),
    {
        Vec2 { x: half(self.x as i64 + other.x as i64) as i32, y: half(self.y as i64 + other.y as i64) as i32 }
    }

    pub fn is_zero(&self) -> (b: bool)
        ensures
            b == (self.x == 0 && self.y == 0),
    {
        self.x == 0 && self.y == 0
    }
}

} // verus!
