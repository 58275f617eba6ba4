//! Integer vectors, exact rational points, and rigid placements.
//!
//! All input geometry is integer-valued (bounded by `COORD_LIMIT`); points
//! produced by clipping are exact rationals sharing one denominator per point.

use vstd::prelude::*;
use crate::rational::{Frac, lemma_mul_bound, mul_ck, COORD_LIMIT};

verus! {

/// An integer vector or point. Two-dimensional data uses `z == 0`.
#[derive(Clone, Copy, Debug, PartialEq, Eq, Structural)]
pub struct Vect {
    pub x: i64,
    pub y: i64,
    pub z: i64,
}

impl Vect {
    /// All components within the global coordinate bound.
    pub open spec fn ok(self) -> bool {
        &&& -(COORD_LIMIT as int) <= self.x as int && self.x as int <= COORD_LIMIT as int
        &&& -(COORD_LIMIT as int) <= self.y as int && self.y as int <= COORD_LIMIT as int
        &&& -(COORD_LIMIT as int) <= self.z as int && self.z as int <= COORD_LIMIT as int
    }

    pub open spec fn is_zero(self) -> bool {
        self.x == 0 && self.y == 0 && self.z == 0
    }

}

pub open spec fn sdot(a: Vect, b: Vect) -> int {
    a.x as int * b.x as int + a.y as int * b.y as int + a.z as int * b.z as int
}

/// `dot(p - q, ax)` over the integers.
pub open spec fn sdot_diff(p: Vect, q: Vect, ax: Vect) -> int {
    (p.x - q.x) * ax.x + (p.y - q.y) * ax.y + (p.z - q.z) * ax.z
}

/// Exact `dot(p - q, ax)` for bounded inputs; the axis bound is a ghost
/// parameter since derived axes can exceed `COORD_LIMIT`.
pub fn dot_diff(p: &Vect, q: &Vect, ax: &Vect, Ghost(ab): Ghost<int>) -> (r: i128)
    requires
        p.ok(), q.ok(),
        0 <= ab,
        -ab <= ax.x as int, ax.x as int <= ab,
        -ab <= ax.y as int, ax.y as int <= ab,
        -ab <= ax.z as int, ax.z as int <= ab,
        24576 * ab <= i128::MAX as int,
    ensures
        r as int == sdot_diff(*p, *q, *ax),
        -(24576 * ab) <= r as int,
        r as int <= 24576 * ab,
{
    let dx: i128 = p.x as i128 - q.x as i128;
    let dy: i128 = p.y as i128 - q.y as i128;
    let dz: i128 = p.z as i128 - q.z as i128;
    let tx = mul_ck(dx, ax.x as i128, Ghost(8192), Ghost(ab));
    let ty = mul_ck(dy, ax.y as i128, Ghost(8192), Ghost(ab));
    let tz = mul_ck(dz, ax.z as i128, Ghost(8192), Ghost(ab));
    tx + ty + tz
}

/// An exact rational point `(nx, ny, nz) / den` with one shared denominator.
#[derive(Clone, Copy, Debug)]
pub struct FracVect {
    pub nx: i128,
    pub ny: i128,
    pub nz: i128,
    pub den: i128,
}

impl FracVect {
    pub open spec fn wf(self) -> bool {
        0 < self.den
    }

    /// The point equals `(n1/d, n2/d, n3/d)` (for `d > 0`).
    pub open spec fn is_point(self, n1: int, n2: int, n3: int, d: int) -> bool {
        &&& self.nx as int * d == n1 * self.den as int
        &&& self.ny as int * d == n2 * self.den as int
        &&& self.nz as int * d == n3 * self.den as int
    }

    /// Bounds on the representation, for overflow bookkeeping.
    pub open spec fn bounded(self, nb: int, db: int) -> bool {
        &&& -nb <= self.nx as int && self.nx as int <= nb
        &&& -nb <= self.ny as int && self.ny as int <= nb
        &&& -nb <= self.nz as int && self.nz as int <= nb
        &&& 0 < self.den as int && self.den as int <= db
    }

    pub fn from_vect(v: &Vect) -> (r: FracVect)
        ensures
            r.wf(),
            r.nx == v.x as i128, r.ny == v.y as i128, r.nz == v.z as i128, r.den == 1,
            v.ok() ==> r.bounded(COORD_LIMIT as int, 1),
    {
        FracVect { nx: v.x as i128, ny: v.y as i128, nz: v.z as i128, den: 1 }
    }
}

/// Interpolation `a + (t_num/t_den) * (b - a)` of two integer points, as one
/// exact rational point over the denominator `t_den`.
pub open spec fn slerp_num(a: int, b: int, t_num: int, t_den: int) -> int {
    a * (t_den - t_num) + b * t_num
}

/// Exact interpolation of two bounded integer points by the exact ratio
/// `t_num / t_den`, `0 < t_den`.
pub fn lerp(a: &Vect, b: &Vect, t_num: i128, t_den: i128, Ghost(tb): Ghost<int>) -> (r: FracVect)
    requires
        a.ok(), b.ok(),
        0 < t_den,
        0 < tb,
        -tb <= t_num as int, t_num as int <= tb,
        t_den as int <= tb,
        12288 * tb <= i128::MAX as int,
    ensures
        r.wf(),
        r.den == t_den,
        r.is_point(
            slerp_num(a.x as int, b.x as int, t_num as int, t_den as int),
            slerp_num(a.y as int, b.y as int, t_num as int, t_den as int),
            slerp_num(a.z as int, b.z as int, t_num as int, t_den as int),
            t_den as int,
        ),
        r.nx as int == slerp_num(a.x as int, b.x as int, t_num as int, t_den as int),
        r.ny as int == slerp_num(a.y as int, b.y as int, t_num as int, t_den as int),
        r.nz as int == slerp_num(a.z as int, b.z as int, t_num as int, t_den as int),
        r.bounded(12288 * tb, tb),
{
    let co: i128 = t_den - t_num;
    let nx = mul_ck(a.x as i128, co, Ghost(4096), Ghost(2 * tb))
        + mul_ck(b.x as i128, t_num, Ghost(4096), Ghost(tb));
    let ny = mul_ck(a.y as i128, co, Ghost(4096), Ghost(2 * tb))
        + mul_ck(b.y as i128, t_num, Ghost(4096), Ghost(tb));
    let nz = mul_ck(a.z as i128, co, Ghost(4096), Ghost(2 * tb))
        + mul_ck(b.z as i128, t_num, Ghost(4096), Ghost(tb));
    FracVect { nx, ny, nz, den: t_den }
}

/// The exact depth of a contact: `-(normal . (w2 - w1))`, as the ratio
/// `sdepth_num / sdepth_den` with `sdepth_den > 0`.
pub open spec fn sdepth_num(n: Vect, w1: FracVect, w2: FracVect) -> int {
    -(n.x as int * (w2.nx as int * w1.den as int - w1.nx as int * w2.den as int)
        + n.y as int * (w2.ny as int * w1.den as int - w1.ny as int * w2.den as int)
        + n.z as int * (w2.nz as int * w1.den as int - w1.nz as int * w2.den as int))
}

pub open spec fn sdepth_den(w1: FracVect, w2: FracVect) -> int {
    w1.den as int * w2.den as int
}

/// Exact signed depth of the point pair `(w1, w2)` along `n`; negative means
/// the points are separated along the normal.
pub fn contact_depth(
    n: &Vect,
    w1: &FracVect,
    w2: &FracVect,
    Ghost(nb1): Ghost<int>,
    Ghost(db1): Ghost<int>,
    Ghost(nb2): Ghost<int>,
    Ghost(db2): Ghost<int>,
) -> (r: Frac)
    requires
        n.ok(), w1.wf(), w2.wf(),
        w1.bounded(nb1, db1), w2.bounded(nb2, db2),
        0 < nb1, 0 < nb2,
        12288 * (nb2 * db1 + nb1 * db2) <= i128::MAX as int,
        db1 * db2 <= i128::MAX as int,
    ensures
        r.wf(),
        r.num as int == sdepth_num(*n, *w1, *w2),
        r.den as int == sdepth_den(*w1, *w2),
        r.is_ratio(sdepth_num(*n, *w1, *w2), sdepth_den(*w1, *w2)),
        -(12288 * (nb2 * db1 + nb1 * db2)) <= r.num as int,
        r.num as int <= 12288 * (nb2 * db1 + nb1 * db2),
        0 < r.den as int, r.den as int <= db1 * db2,
{
    proof {
        lemma_mul_bound(nb2, db1, nb2, db1);
        lemma_mul_bound(nb1, db2, nb1, db2);
    }
    let cx = mul_ck(w2.nx, w1.den, Ghost(nb2), Ghost(db1))
        - mul_ck(w1.nx, w2.den, Ghost(nb1), Ghost(db2));
    let cy = mul_ck(w2.ny, w1.den, Ghost(nb2), Ghost(db1))
        - mul_ck(w1.ny, w2.den, Ghost(nb1), Ghost(db2));
    let cz = mul_ck(w2.nz, w1.den, Ghost(nb2), Ghost(db1))
        - mul_ck(w1.nz, w2.den, Ghost(nb1), Ghost(db2));
    let ghost cb: int = nb2 * db1 + nb1 * db2;
    let tx = mul_ck(n.x as i128, cx, Ghost(4096), Ghost(cb));
    let ty = mul_ck(n.y as i128, cy, Ghost(4096), Ghost(cb));
    let tz = mul_ck(n.z as i128, cz, Ghost(4096), Ghost(cb));
    let den = mul_ck(w1.den, w2.den, Ghost(db1), Ghost(db2));
    proof {
        lemma_mul_bound(w1.den as int, w2.den as int, db1, db2);
        assert(0 < w1.den as int * w2.den as int) by (nonlinear_arith)
            requires 0 < w1.den as int, 0 < w2.den as int;
    }
    Frac { num: -(tx + ty + tz), den }
}

/// The depth of a point pair sharing one denominator `d`:
/// `-(normal . (w2 - w1))` as the ratio over that same `d`.
pub open spec fn sdepth_common_num(n: Vect, w1: FracVect, w2: FracVect) -> int {
    -(n.x as int * (w2.nx as int - w1.nx as int) + n.y as int * (w2.ny as int - w1.ny as int)
        + n.z as int * (w2.nz as int - w1.nz as int))
}

/// Exact signed depth when both points share one denominator; the result
/// keeps that denominator, which keeps deep edge-to-edge chains in `i128`.
pub fn contact_depth_common(n: &Vect, w1: &FracVect, w2: &FracVect, Ghost(nb): Ghost<int>)
    -> (r: Frac)
    requires
        n.ok(), w1.wf(), w2.wf(),
        w1.den == w2.den,
        0 < nb,
        -nb <= w1.nx as int, w1.nx as int <= nb,
        -nb <= w1.ny as int, w1.ny as int <= nb,
        -nb <= w1.nz as int, w1.nz as int <= nb,
        -nb <= w2.nx as int, w2.nx as int <= nb,
        -nb <= w2.ny as int, w2.ny as int <= nb,
        -nb <= w2.nz as int, w2.nz as int <= nb,
        24576 * nb <= i128::MAX as int,
    ensures
        r.wf(),
        r.num as int == sdepth_common_num(*n, *w1, *w2),
        r.den == w1.den,
        -(24576 * nb) <= r.num as int, r.num as int <= 24576 * nb,
{
    let cx: i128 = w2.nx - w1.nx;
    let cy: i128 = w2.ny - w1.ny;
    let cz: i128 = w2.nz - w1.nz;
    let tx = mul_ck(n.x as i128, cx, Ghost(4096), Ghost(2 * nb));
    let ty = mul_ck(n.y as i128, cy, Ghost(4096), Ghost(2 * nb));
    let tz = mul_ck(n.z as i128, cz, Ghost(4096), Ghost(2 * nb));
    Frac { num: -(tx + ty + tz), den: w1.den }
}

/// A placement: the rational affine map `p |-> (R p) / div + t`, standing for
/// a rigid isometry whose rotation entries were scaled to integers.
#[derive(Clone, Copy, Debug)]
pub struct Placement {
    pub r0: Vect,
    pub r1: Vect,
    pub r2: Vect,
    pub div: i64,
    pub t: Vect,
}

impl Placement {
    pub open spec fn ok(self) -> bool {
        &&& self.r0.ok() && self.r1.ok() && self.r2.ok() && self.t.ok()
        &&& 0 < self.div && self.div as int <= COORD_LIMIT as int
    }

    /// The identity placement.
    pub fn identity() -> (r: Placement)
        ensures
            r.ok(),
            r.r0 == (Vect { x: 1, y: 0, z: 0 }),
            r.r1 == (Vect { x: 0, y: 1, z: 0 }),
            r.r2 == (Vect { x: 0, y: 0, z: 1 }),
            r.div == 1,
            r.t == (Vect { x: 0, y: 0, z: 0 }),
    {
        Placement {
            r0: Vect { x: 1, y: 0, z: 0 },
            r1: Vect { x: 0, y: 1, z: 0 },
            r2: Vect { x: 0, y: 0, z: 1 },
            div: 1,
            t: Vect { x: 0, y: 0, z: 0 },
        }
    }
}

/// One output component of a placement applied to a rational point:
/// `(row . p_num) + t_i * div * p_den`, all over `div * p_den`.
pub open spec fn sapply_num(row: Vect, ti: int, div: int, p: FracVect) -> int {
    row.x as int * p.nx as int + row.y as int * p.ny as int + row.z as int * p.nz as int
        + ti * div * p.den as int
}

pub open spec fn sapply_den(div: int, p: FracVect) -> int {
    div * p.den as int
}

/// Applies a placement to a rational point, exactly.
pub fn apply_placement(m: &Placement, p: &FracVect, Ghost(nb): Ghost<int>, Ghost(db): Ghost<int>)
    -> (r: FracVect)
    requires
        m.ok(), p.wf(), p.bounded(nb, db),
        0 < nb,
        24576 * nb <= i128::MAX as int,
        33554432 * db <= i128::MAX as int,
    ensures
        r.wf(),
        r.nx as int == sapply_num(m.r0, m.t.x as int, m.div as int, *p),
        r.ny as int == sapply_num(m.r1, m.t.y as int, m.div as int, *p),
        r.nz as int == sapply_num(m.r2, m.t.z as int, m.div as int, *p),
        r.den as int == sapply_den(m.div as int, *p),
        r.bounded(24576 * nb + 16777216 * db, 4096 * db),
{
    let den = mul_ck(m.div as i128, p.den, Ghost(4096), Ghost(db));
    proof {
        assert(0 < m.div as int * p.den as int) by (nonlinear_arith)
            requires 0 < m.div as int, 0 < p.den as int;
    }
    let tdx = mul_ck(m.t.x as i128, den, Ghost(4096), Ghost(4096 * db));
    let tdy = mul_ck(m.t.y as i128, den, Ghost(4096), Ghost(4096 * db));
    let tdz = mul_ck(m.t.z as i128, den, Ghost(4096), Ghost(4096 * db));
    let nx = mul_ck(m.r0.x as i128, p.nx, Ghost(4096), Ghost(nb))
        + mul_ck(m.r0.y as i128, p.ny, Ghost(4096), Ghost(nb))
        + mul_ck(m.r0.z as i128, p.nz, Ghost(4096), Ghost(nb)) + tdx;
    let ny = mul_ck(m.r1.x as i128, p.nx, Ghost(4096), Ghost(nb))
        + mul_ck(m.r1.y as i128, p.ny, Ghost(4096), Ghost(nb))
        + mul_ck(m.r1.z as i128, p.nz, Ghost(4096), Ghost(nb)) + tdy;
    let nz = mul_ck(m.r2.x as i128, p.nx, Ghost(4096), Ghost(nb))
        + mul_ck(m.r2.y as i128, p.ny, Ghost(4096), Ghost(nb))
        + mul_ck(m.r2.z as i128, p.nz, Ghost(4096), Ghost(nb)) + tdz;
    proof {
        assert(m.t.x as int * (m.div as int * p.den as int)
            == m.t.x as int * m.div as int * p.den as int) by (nonlinear_arith);
        assert(m.t.y as int * (m.div as int * p.den as int)
            == m.t.y as int * m.div as int * p.den as int) by (nonlinear_arith);
        assert(m.t.z as int * (m.div as int * p.den as int)
            == m.t.z as int * m.div as int * p.den as int) by (nonlinear_arith);
    }
    FracVect { nx, ny, nz, den }
}

/// Rotates an integer direction by the placement's linear part.
pub fn rotate_dir(m: &Placement, v: &Vect, Ghost(vb): Ghost<int>) -> (r: Vect)
    requires
        m.ok(),
        0 < vb,
        -vb <= v.x as int, v.x as int <= vb,
        -vb <= v.y as int, v.y as int <= vb,
        -vb <= v.z as int, v.z as int <= vb,
        12288 * vb <= i64::MAX as int,
    ensures
        r.x as int == sdot(m.r0, *v),
        r.y as int == sdot(m.r1, *v),
        r.z as int == sdot(m.r2, *v),
        -(12288 * vb) <= r.x as int, r.x as int <= 12288 * vb,
        -(12288 * vb) <= r.y as int, r.y as int <= 12288 * vb,
        -(12288 * vb) <= r.z as int, r.z as int <= 12288 * vb,
{
    proof {
        lemma_mul_bound(m.r0.x as int, v.x as int, 4096, vb);
        lemma_mul_bound(m.r0.y as int, v.y as int, 4096, vb);
        lemma_mul_bound(m.r0.z as int, v.z as int, 4096, vb);
        lemma_mul_bound(m.r1.x as int, v.x as int, 4096, vb);
        lemma_mul_bound(m.r1.y as int, v.y as int, 4096, vb);
        lemma_mul_bound(m.r1.z as int, v.z as int, 4096, vb);
        lemma_mul_bound(m.r2.x as int, v.x as int, 4096, vb);
        lemma_mul_bound(m.r2.y as int, v.y as int, 4096, vb);
        lemma_mul_bound(m.r2.z as int, v.z as int, 4096, vb);
    }
    Vect {
        x: m.r0.x * v.x + m.r0.y * v.y + m.r0.z * v.z,
        y: m.r1.x * v.x + m.r1.y * v.y + m.r1.z * v.z,
        z: m.r2.x * v.x + m.r2.y * v.y + m.r2.z * v.z,
    }
}

} // verus!
