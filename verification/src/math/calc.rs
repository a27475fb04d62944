use vstd::prelude::*;
use core::cmp::Ordering;
use vstd::std_specs::cmp::PartialOrdSpec;

verus! {

/// The degree of a polynomial, named from its number of coefficients.
#[derive(Debug, Copy, Clone, PartialEq, Eq, Structural)]
pub enum Degree {
    Constant,
    Linear,
    Quadratic,
    Cubic,
    Quartic,
    Quintic,
    Invalid,
}

/// The degree named for `value` coefficients; five coefficients name `Quintic` and six
/// name `Quartic`.
pub open spec fn degree_of(value: u32) -> Degree {
    if value == 1 {
        Degree::Constant
    } else if value == 2 {
        Degree::Linear
    } else if value == 3 {
        Degree::Quadratic
    } else if value == 4 {
        Degree::Cubic
    } else if value == 5 {
        Degree::Quintic
    } else if value == 6 {
        Degree::Quartic
    } else {
        Degree::Invalid
    }
}

impl From<u32> for Degree {
    fn from(value: u32) -> (d: Self) {
        match value {
            1 => Self::Constant,
            2 => Self::Linear,
            3 => Self::Quadratic,
            4 => Self::Cubic,
            5 => Self::Quintic,
            6 => Self::Quartic,
            _ => Self::Invalid,
        }
    }
}

impl vstd::std_specs::convert::FromSpecImpl<u32> for Degree {
    open spec fn obeys_from_spec() -> bool {
        true
    }

    open spec fn from_spec(value: u32) -> Degree {
        degree_of(value)
    }
}

/// Whether `a < b` by the order of `T`.
pub open spec fn less<T: PartialOrd>(a: T, b: T) -> bool {
    a.partial_cmp_spec(&b) == Some(Ordering::Less)
}

/// Whether `less` orders `a`, `b` and `c` strictly and totally: of two of them that are
/// equal neither is less, of two that differ exactly one is, and it is transitive.
pub open spec fn strictly_ordered<T: PartialOrd>(a: T, b: T, c: T) -> bool {
    let in3 = |x: T| x == a || x == b || x == c;
    &&& forall|x: T, y: T| in3(x) && in3(y) ==> (x == y ==> !#[trigger] less(x, y))
        && (x != y ==> (less(x, y) <==> !less(y, x)))
    &&& forall|x: T, y: T, z: T| in3(x) && in3(y) && in3(z) && #[trigger] less(x, y) && #[trigger] less(y, z)
        ==> less(x, z)
}

/// Whether `m` lies between `p` and `q`: it is neither below both nor above both.
pub open spec fn lies_between<T: PartialOrd>(m: T, p: T, q: T) -> bool {
    !(less(m, p) && less(m, q)) && !(less(p, m) && less(q, m))
}

/// Whether `m` is one of `a`, `b`, `c` and lies between the other two.
pub open spec fn is_median<T: PartialOrd>(m: T, a: T, b: T, c: T) -> bool {
    ||| m == a && lies_between(a, b, c)
    ||| m == b && lies_between(b, a, c)
    ||| m == c && lies_between(c, a, b)
}

/// The middle one of three values: one of them, and, where the order of `T` ranks the
/// three strictly and totally, the one between the other two.
pub fn median<T: PartialOrd + Copy>(a: T, b: T, c: T) -> (r: T)
    ensures
        r == a || r == b || r == c,
        T::obeys_partial_cmp_spec() && strictly_ordered(a, b, c) ==> is_median(r, a, b, c),
{
    proof {
        if T::obeys_partial_cmp_spec() && strictly_ordered(a, b, c) {
            assert(less(a, b) ==> !less(b, a));
            assert(less(b, c) ==> !less(c, b));
            assert(less(a, c) ==> !less(c, a));
        }
    }
    if a < b {
        if b < c {
            b
        } else if a < c {
            c
        } else {
            a
        }
    } else {
        if a < c {
            a
        } else if b < c {
            c
        } else {
            b
        }
    }
}

/// On integers the order is strict and total, and the median lies numerically between the
/// two other values.
pub proof fn lemma_median_between(m: i64, a: i64, b: i64, c: i64)
    ensures
        strictly_ordered(a, b, c),
        is_median(m, a, b, c) ==> {
            ||| m == a && ((b <= a && a <= c) || (c <= a && a <= b))
            ||| m == b && ((a <= b && b <= c) || (c <= b && b <= a))
            ||| m == c && ((a <= c && c <= b) || (b <= c && c <= a))
        },
{
}

} // verus!
