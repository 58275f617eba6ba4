//! Exact rational numbers with an explicit positive denominator, and the
//! overflow bookkeeping that keeps every computation of the crate in `i128`.

use vstd::prelude::*;

verus! {

/// Largest magnitude accepted for the integer inputs of the library: feature
/// coordinates, contact normals, transform entries, and the numerator and
/// denominator of the prediction margin. With inputs in this range every
/// exact intermediate value of the clipper fits in an `i128`.
pub const COORD_LIMIT: i64 = 4096;

pub proof fn lemma_mul_bound(x: int, y: int, a: int, b: int)
    by (nonlinear_arith)
    requires
        -a <= x, x <= a,
        -b <= y, y <= b,
        0 <= a, 0 <= b,
    ensures
        -(a * b) <= x * y, x * y <= a * b,
{
}

/// Multiplies two `i128` values whose ghost bounds rule out overflow.
pub fn mul_ck(a: i128, b: i128, Ghost(ba): Ghost<int>, Ghost(bb): Ghost<int>) -> (r: i128)
    requires
        -ba <= a as int, a as int <= ba,
        -bb <= b as int, b as int <= bb,
        0 <= ba, 0 <= bb,
        ba * bb <= i128::MAX as int,
    ensures
        r as int == a as int * b as int,
        -(ba * bb) <= r as int, r as int <= ba * bb,
{
    proof { lemma_mul_bound(a as int, b as int, ba, bb); }
    a * b
}

/// An exact rational `num / den` with `den > 0`.
#[derive(Clone, Copy, Debug)]
pub struct Frac {
    pub num: i128,
    pub den: i128,
}

impl Frac {
    pub open spec fn wf(self) -> bool {
        0 < self.den
    }

    /// The value of `self` is exactly `n / d` (for `d > 0`).
    pub open spec fn is_ratio(self, n: int, d: int) -> bool {
        self.num as int * d == n * self.den as int
    }
}

/// The margin acceptance policy: a contact of depth `depth` is retained iff
/// `-depth <= linear`, the allowed interpenetration/prediction margin.
pub open spec fn accepted_spec(depth: Frac, linear: Frac) -> bool {
    -(depth.num as int * linear.den as int) <= linear.num as int * depth.den as int
}

/// Runs the margin acceptance test exactly.
pub fn accepted(depth: Frac, linear: Frac, Ghost(bn): Ghost<int>, Ghost(bd): Ghost<int>) -> (r: bool)
    requires
        depth.wf(), linear.wf(),
        -bn <= depth.num as int, depth.num as int <= bn,
        0 < depth.den as int, depth.den as int <= bd,
        0 <= bn, 0 < bd,
        -(COORD_LIMIT as int) <= linear.num as int, linear.num as int <= COORD_LIMIT as int,
        0 < linear.den as int, linear.den as int <= COORD_LIMIT as int,
        4096 * bn <= i128::MAX as int,
        4096 * bd <= i128::MAX as int,
    ensures
        r == accepted_spec(depth, linear),
{
    let lhs = mul_ck(depth.num, linear.den, Ghost(bn), Ghost(4096));
    let rhs = mul_ck(linear.num, depth.den, Ghost(4096), Ghost(bd));
    -lhs <= rhs
}

} // verus!
