//! The clipper: intersects the two extracted features to produce the raw
//! contact points of one update.
//!
//! The two-dimensional path clips segment against segment exactly; the
//! three-dimensional path projects both vertex loops onto a plane orthogonal
//! to the contact normal and combines a point-in-polygon pass with an
//! edge-against-edge crossing pass. Every produced contact is subject to the
//! same margin acceptance test.

use vstd::prelude::*;
use crate::contact::Contact;
use crate::feature::{ConvexPolygonalFeature, FeatureId};
use crate::geometry::{
    contact_depth, contact_depth_common, dot_diff, lerp, sdepth_common_num, sdepth_den,
    sdepth_num, sdot, sdot_diff, slerp_num, FracVect, Vect,
};
use crate::rational::{accepted, accepted_spec, lemma_mul_bound, mul_ck, Frac};

verus! {

/// A contact prediction configuration: the linear margin, and the angular
/// tolerances the caller hands to the feature extractor for each shape.
#[derive(Clone, Copy, Debug)]
pub struct ContactPrediction {
    pub linear: Frac,
    pub angular1: Frac,
    pub angular2: Frac,
}

impl ContactPrediction {
    /// The linear margin is a bounded nonnegative rational.
    pub open spec fn wf(self) -> bool {
        &&& self.linear.wf()
        &&& 0 <= self.linear.num as int && self.linear.num as int <= 4096
        &&& self.linear.den as int <= 4096
    }
}

/// Scratch buffers holding the projections of both features' vertex loops
/// onto the clipping plane; cleared and refilled every update.
#[derive(Clone, Debug)]
pub struct ClippingCache {
    pub poly1: Vec<ProjPoint>,
    pub poly2: Vec<ProjPoint>,
}

/// A projected vertex in the two-dimensional clipping basis.
#[derive(Clone, Copy, Debug)]
pub struct ProjPoint {
    pub x: i128,
    pub y: i128,
}

impl ClippingCache {
    pub fn new() -> (r: ClippingCache)
        ensures
            r.poly1@.len() == 0,
            r.poly2@.len() == 0,
    {
        ClippingCache { poly1: Vec::with_capacity(4), poly2: Vec::with_capacity(4) }
    }

    pub fn clear(&mut self)
        ensures
            final(self).poly1@.len() == 0,
            final(self).poly2@.len() == 0,
    {
        self.poly1.clear();
        self.poly2.clear();
    }
}

/// An exact rational point, as a mathematical value.
pub struct PointModel {
    pub x: int,
    pub y: int,
    pub z: int,
    pub d: int,
}

/// A raw contact as a mathematical value: the two points, the depth ratio,
/// and the feature pair that produced it.
pub struct ContactModel {
    pub p1: PointModel,
    pub p2: PointModel,
    pub dn: int,
    pub dd: int,
    pub f1: FeatureId,
    pub f2: FeatureId,
}

pub open spec fn pmodel_of_vect(v: Vect) -> PointModel {
    PointModel { x: v.x as int, y: v.y as int, z: v.z as int, d: 1 }
}

pub open spec fn pmodel_lerp(a: Vect, b: Vect, tn: int, td: int) -> PointModel {
    PointModel {
        x: slerp_num(a.x as int, b.x as int, tn, td),
        y: slerp_num(a.y as int, b.y as int, tn, td),
        z: slerp_num(a.z as int, b.z as int, tn, td),
        d: td,
    }
}

pub open spec fn pmodel_matches(w: FracVect, m: PointModel) -> bool {
    &&& w.nx as int == m.x
    &&& w.ny as int == m.y
    &&& w.nz as int == m.z
    &&& w.den as int == m.d
}

pub open spec fn model_depth_num(n: Vect, p1: PointModel, p2: PointModel) -> int {
    -(n.x as int * (p2.x * p1.d - p1.x * p2.d) + n.y as int * (p2.y * p1.d - p1.y * p2.d)
        + n.z as int * (p2.z * p1.d - p1.z * p2.d))
}

pub open spec fn contact_model(
    n: Vect,
    p1: PointModel,
    p2: PointModel,
    f1: FeatureId,
    f2: FeatureId,
) -> ContactModel {
    ContactModel { p1, p2, dn: model_depth_num(n, p1, p2), dd: p1.d * p2.d, f1, f2 }
}

/// The margin acceptance test at the model level; the same inequality the
/// executable test decides.
pub open spec fn model_accepted(m: ContactModel, linear: Frac) -> bool {
    -(m.dn * linear.den as int) <= linear.num as int * m.dd
}

/// One produced contact agrees with its model, representative for
/// representative, and carries the clipping normal.
pub open spec fn raw_matches(
    e: (Contact, FeatureId, FeatureId),
    n: Vect,
    m: ContactModel,
) -> bool {
    &&& pmodel_matches(e.0.world1, m.p1)
    &&& pmodel_matches(e.0.world2, m.p2)
    &&& e.0.normal == n
    &&& e.0.depth.num as int == m.dn
    &&& e.0.depth.den as int == m.dd
    &&& e.0.wf()
    &&& e.0.world1.bounded(100000000000000000000000000000, 10000000000000000000000000)
    &&& e.0.world2.bounded(100000000000000000000000000000, 10000000000000000000000000)
    &&& e.1 == m.f1
    &&& e.2 == m.f2
}

pub open spec fn raws_match(
    s: Seq<(Contact, FeatureId, FeatureId)>,
    n: Vect,
    ms: Seq<ContactModel>,
) -> bool {
    s.len() == ms.len() && forall|i: int| 0 <= i < s.len() ==> raw_matches(s[i], n, ms[i])
}

/// The projection of `v` onto the axis orthogonal to `n`, relative to `o`:
/// the two-dimensional clipping coordinate of the segment path.
pub open spec fn sproj2(v: Vect, o: Vect, n: Vect) -> int {
    (v.x as int - o.x as int) * -(n.y as int) + (v.y as int - o.y as int) * n.x as int
}

/// One clip boundary of the segment path. `first` selects the earlier
/// boundary (maximum of the two interval starts) or the later one (minimum of
/// the two ends); the segment whose endpoint realizes the boundary
/// contributes the endpoint itself, the other is interpolated there.
///
/// Degenerate choice, part of the contract: when the interpolated segment
/// projects to a single point (`h2 == l2`, an interpolation denominator of
/// zero), its sorted-low endpoint stands in for the undefined interpolation.
/// The margin test still decides whether the contact is retained, so a
/// degenerate far point is dropped by depth, not by shape.
pub open spec fn clip2_candidate(
    first: bool,
    l1: int, h1: int, lo1: Vect, hi1: Vect, ilo1: FeatureId, ihi1: FeatureId, fid1: FeatureId,
    l2: int, h2: int, lo2: Vect, hi2: Vect, ilo2: FeatureId, ihi2: FeatureId, fid2: FeatureId,
    n: Vect,
) -> ContactModel {
    if first {
        if l2 > l1 {
            contact_model(n, pmodel_lerp(lo1, hi1, l2 - l1, h1 - l1), pmodel_of_vect(lo2),
                fid1, ilo2)
        } else {
            let td = h2 - l2;
            let p2 = if td == 0 { pmodel_lerp(lo2, hi2, 0, 1) } else {
                pmodel_lerp(lo2, hi2, l1 - l2, td)
            };
            contact_model(n, pmodel_of_vect(lo1), p2, ilo1, fid2)
        }
    } else {
        if h2 < h1 {
            contact_model(n, pmodel_lerp(lo1, hi1, h2 - l1, h1 - l1), pmodel_of_vect(hi2),
                fid1, ihi2)
        } else {
            let td = h2 - l2;
            let p2 = if td == 0 { pmodel_lerp(lo2, hi2, 0, 1) } else {
                pmodel_lerp(lo2, hi2, h1 - l2, td)
            };
            contact_model(n, pmodel_of_vect(hi1), p2, ihi1, fid2)
        }
    }
}

/// The whole outcome of the two-dimensional clip on sorted projections.
pub open spec fn clip2_sorted_model(
    l1: int, h1: int, lo1: Vect, hi1: Vect, ilo1: FeatureId, ihi1: FeatureId, fid1: FeatureId,
    l2: int, h2: int, lo2: Vect, hi2: Vect, ilo2: FeatureId, ihi2: FeatureId, fid2: FeatureId,
    n: Vect,
    linear: Frac,
) -> Seq<ContactModel> {
    if l2 > h1 || l1 > h2 {
        Seq::empty()
    } else {
        let ca = clip2_candidate(true, l1, h1, lo1, hi1, ilo1, ihi1, fid1,
            l2, h2, lo2, hi2, ilo2, ihi2, fid2, n);
        let cb = clip2_candidate(false, l1, h1, lo1, hi1, ilo1, ihi1, fid1,
            l2, h2, lo2, hi2, ilo2, ihi2, fid2, n);
        let sa: Seq<ContactModel> = if model_accepted(ca, linear) {
            Seq::empty().push(ca)
        } else {
            Seq::empty()
        };
        if model_accepted(cb, linear) {
            sa.push(cb)
        } else {
            sa
        }
    }
}

/// The outcome of the two-dimensional clip on two features, as mathematical
/// contacts: sort each segment's endpoints along the axis orthogonal to the
/// normal, intersect the two intervals, and realize both boundaries of the
/// overlap, subject to the margin test.
pub open spec fn clip2_model(
    f1: ConvexPolygonalFeature,
    f2: ConvexPolygonalFeature,
    n: Vect,
    linear: Frac,
) -> Seq<ContactModel> {
    if f1.vertices.len() <= 1 || f2.vertices.len() <= 1 {
        Seq::empty()
    } else {
        let a1 = f1.vertices[0];
        let b1 = f1.vertices[1];
        let a2 = f2.vertices[0];
        let b2 = f2.vertices[1];
        let r1a = sproj2(a1, a1, n);
        let r1b = sproj2(b1, a1, n);
        let r2a = sproj2(a2, a1, n);
        let r2b = sproj2(b2, a1, n);
        let s1 = r1b < r1a;
        let s2 = r2b < r2a;
        clip2_sorted_model(
            if s1 { r1b } else { r1a },
            if s1 { r1a } else { r1b },
            if s1 { b1 } else { a1 },
            if s1 { a1 } else { b1 },
            if s1 { f1.vertices_id[1] } else { f1.vertices_id[0] },
            if s1 { f1.vertices_id[0] } else { f1.vertices_id[1] },
            f1.feature_id,
            if s2 { r2b } else { r2a },
            if s2 { r2a } else { r2b },
            if s2 { b2 } else { a2 },
            if s2 { a2 } else { b2 },
            if s2 { f2.vertices_id[1] } else { f2.vertices_id[0] },
            if s2 { f2.vertices_id[0] } else { f2.vertices_id[1] },
            f2.feature_id,
            n,
            linear,
        )
    }
}

/// Clips two segment features (the two-dimensional path). At most two
/// contacts are appended, exactly those of `clip2_model` — including its
/// documented choice for a segment of zero projected length.
pub fn clip_segments(
    f1: &ConvexPolygonalFeature,
    f2: &ConvexPolygonalFeature,
    n: &Vect,
    prediction: &ContactPrediction,
    out: &mut Vec<(Contact, FeatureId, FeatureId)>,
)
    requires
        f1.wf(), f2.wf(),
        n.ok(),
        prediction.wf(),
        old(out)@.len() + 2 <= usize::MAX,
    ensures
        final(out)@.len() == old(out)@.len() + clip2_model(*f1, *f2, *n, prediction.linear).len(),
        final(out)@.subrange(0, old(out)@.len() as int) == old(out)@,
        raws_match(
            final(out)@.skip(old(out)@.len() as int),
            *n,
            clip2_model(*f1, *f2, *n, prediction.linear),
        ),
{
    let ghost model = clip2_model(*f1, *f2, *n, prediction.linear);
    if f1.vertices.len() <= 1 || f2.vertices.len() <= 1 {
        proof {
            assert(final(out)@.skip(old(out)@.len() as int) =~= Seq::<(Contact, FeatureId,
                FeatureId)>::empty());
        }
        return;
    }
    let a1 = f1.vertices[0];
    let b1 = f1.vertices[1];
    let a2 = f2.vertices[0];
    let b2 = f2.vertices[1];
    // The axis orthogonal to the contact normal.
    let ortho = Vect { x: -n.y, y: n.x, z: 0 };
    let r1a: i128 = 0;
    let r1b = dot_diff(&b1, &a1, &ortho, Ghost(4096));
    let r2a = dot_diff(&a2, &a1, &ortho, Ghost(4096));
    let r2b = dot_diff(&b2, &a1, &ortho, Ghost(4096));
    proof {
        assert(sproj2(a1, a1, *n) == 0);
        assert(sdot_diff(b1, a1, ortho) == sproj2(b1, a1, *n));
        assert(sdot_diff(a2, a1, ortho) == sproj2(a2, a1, *n));
        assert(sdot_diff(b2, a1, ortho) == sproj2(b2, a1, *n));
    }
    // Sort both segments along the axis, carrying ids and endpoints along.
    let s1 = r1b < r1a;
    let s2 = r2b < r2a;
    let (l1, h1) = if s1 { (r1b, r1a) } else { (r1a, r1b) };
    let (lo1, hi1) = if s1 { (b1, a1) } else { (a1, b1) };
    let (ilo1, ihi1) = if s1 {
        (f1.vertices_id[1], f1.vertices_id[0])
    } else {
        (f1.vertices_id[0], f1.vertices_id[1])
    };
    let (l2, h2) = if s2 { (r2b, r2a) } else { (r2a, r2b) };
    let (lo2, hi2) = if s2 { (b2, a2) } else { (a2, b2) };
    let (ilo2, ihi2) = if s2 {
        (f2.vertices_id[1], f2.vertices_id[0])
    } else {
        (f2.vertices_id[0], f2.vertices_id[1])
    };
    let ghost sorted_model = clip2_sorted_model(l1 as int, h1 as int, lo1, hi1, ilo1, ihi1,
        f1.feature_id, l2 as int, h2 as int, lo2, hi2, ilo2, ihi2, f2.feature_id, *n,
        prediction.linear);
    proof {
        assert(model == sorted_model);
    }
    if l2 > h1 || l1 > h2 {
        proof {
            assert(final(out)@.skip(old(out)@.len() as int) =~= Seq::<(Contact, FeatureId,
                FeatureId)>::empty());
        }
        return;
    }
    let ghost tb: int = 268435456;
    // First boundary of the overlap interval.
    let ca: Contact;
    let fa1: FeatureId;
    let fa2: FeatureId;
    if l2 > l1 {
        let p1 = lerp(&lo1, &hi1, l2 - l1, h1 - l1, Ghost(tb));
        let p2 = FracVect::from_vect(&lo2);
        let depth = contact_depth(n, &p1, &p2, Ghost(12288 * tb), Ghost(tb), Ghost(4096),
            Ghost(1));
        ca = Contact { world1: p1, world2: p2, normal: *n, depth };
        fa1 = f1.feature_id;
        fa2 = ilo2;
    } else {
        let p1 = FracVect::from_vect(&lo1);
        let td = h2 - l2;
        let p2 = if td == 0 {
            lerp(&lo2, &hi2, 0, 1, Ghost(tb))
        } else {
            lerp(&lo2, &hi2, l1 - l2, td, Ghost(tb))
        };
        let depth = contact_depth(n, &p1, &p2, Ghost(4096), Ghost(1), Ghost(12288 * tb),
            Ghost(tb));
        ca = Contact { world1: p1, world2: p2, normal: *n, depth };
        fa1 = ilo1;
        fa2 = f2.feature_id;
    }
    let ghost ma = clip2_candidate(true, l1 as int, h1 as int, lo1, hi1, ilo1, ihi1,
        f1.feature_id, l2 as int, h2 as int, lo2, hi2, ilo2, ihi2, f2.feature_id, *n);
    proof {
        assert(raw_matches((ca, fa1, fa2), *n, ma));
    }
    if accepted(ca.depth, prediction.linear, Ghost(12288 * (4096 * tb + 12288 * tb)),
        Ghost(tb)) {
        out.push((ca, fa1, fa2));
    }
    // Second boundary of the overlap interval.
    let cb: Contact;
    let fb1: FeatureId;
    let fb2: FeatureId;
    if h2 < h1 {
        let p1 = lerp(&lo1, &hi1, h2 - l1, h1 - l1, Ghost(tb));
        let p2 = FracVect::from_vect(&hi2);
        let depth = contact_depth(n, &p1, &p2, Ghost(12288 * tb), Ghost(tb), Ghost(4096),
            Ghost(1));
        cb = Contact { world1: p1, world2: p2, normal: *n, depth };
        fb1 = f1.feature_id;
        fb2 = ihi2;
    } else {
        let p1 = FracVect::from_vect(&hi1);
        let td = h2 - l2;
        let p2 = if td == 0 {
            lerp(&lo2, &hi2, 0, 1, Ghost(tb))
        } else {
            lerp(&lo2, &hi2, h1 - l2, td, Ghost(tb))
        };
        let depth = contact_depth(n, &p1, &p2, Ghost(4096), Ghost(1), Ghost(12288 * tb),
            Ghost(tb));
        cb = Contact { world1: p1, world2: p2, normal: *n, depth };
        fb1 = ihi1;
        fb2 = f2.feature_id;
    }
    let ghost mb = clip2_candidate(false, l1 as int, h1 as int, lo1, hi1, ilo1, ihi1,
        f1.feature_id, l2 as int, h2 as int, lo2, hi2, ilo2, ihi2, f2.feature_id, *n);
    proof {
        assert(raw_matches((cb, fb1, fb2), *n, mb));
    }
    if accepted(cb.depth, prediction.linear, Ghost(12288 * (4096 * tb + 12288 * tb)),
        Ghost(tb)) {
        out.push((cb, fb1, fb2));
    }
    proof {
        assert(raws_match(final(out)@.skip(old(out)@.len() as int), *n, sorted_model));
    }
}

/// A projected vertex as a mathematical value.
pub struct ProjModel {
    pub x: int,
    pub y: int,
}

/// An integer vector as a triple of mathematical integers.
pub open spec fn vt(v: Vect) -> (int, int, int) {
    (v.x as int, v.y as int, v.z as int)
}

pub open spec fn scross2(ax: int, ay: int, bx: int, by: int) -> int {
    ax * by - ay * bx
}

pub open spec fn scross3(a: (int, int, int), b: (int, int, int)) -> (int, int, int) {
    (a.1 * b.2 - a.2 * b.1, a.2 * b.0 - a.0 * b.2, a.0 * b.1 - a.1 * b.0)
}

/// The first vector of the clipping basis orthogonal to `n`.
pub open spec fn sbasis1(n: Vect) -> (int, int, int) {
    if n.x == 0 && n.y == 0 {
        (1, 0, 0)
    } else {
        (-(n.y as int), n.x as int, 0)
    }
}

/// The second vector of the clipping basis: `n` crossed with the first.
pub open spec fn sbasis2(n: Vect) -> (int, int, int) {
    scross3(vt(n), sbasis1(n))
}

/// `dot(p - q, ax)` for a mathematical axis.
pub open spec fn sdot_difft(p: Vect, q: Vect, ax: (int, int, int)) -> int {
    (p.x as int - q.x as int) * ax.0 + (p.y as int - q.y as int) * ax.1
        + (p.z as int - q.z as int) * ax.2
}

pub open spec fn proj_model(v: Vect, refp: Vect, b1: (int, int, int), b2: (int, int, int))
    -> ProjModel {
    ProjModel { x: sdot_difft(v, refp, b1), y: sdot_difft(v, refp, b2) }
}

pub open spec fn proj_seq(vs: Seq<Vect>, refp: Vect, b1: (int, int, int), b2: (int, int, int))
    -> Seq<ProjModel> {
    Seq::new(vs.len(), |i: int| proj_model(vs[i], refp, b1, b2))
}

pub open spec fn proj_matches(c: Seq<ProjPoint>, m: Seq<ProjModel>) -> bool {
    c.len() == m.len() && forall|i: int|
        0 <= i < c.len() ==> (#[trigger] c[i]).x as int == m[i].x && c[i].y as int == m[i].y
}

/// The perpendicular product classifying `pt` against the directed edge
/// `a -> b`.
pub open spec fn sperp(pt: ProjModel, a: ProjModel, b: ProjModel) -> int {
    scross2(pt.x - a.x, pt.y - a.y, b.x - a.x, b.y - a.y)
}

/// Point-in-convex-polygon: no two edges classify the point with strictly
/// opposite signs, whatever the loop's orientation.
pub open spec fn spip(pt: ProjModel, poly: Seq<ProjModel>) -> bool {
    (forall|i: int|
        0 <= i < poly.len() ==> #[trigger] sperp(pt, poly[i], poly[(i + 1) % (poly.len() as int)])
            >= 0) || (forall|i: int|
        0 <= i < poly.len() ==> #[trigger] sperp(pt, poly[i], poly[(i + 1) % (poly.len() as int)])
            <= 0)
}

/// The vertex of the projection plane standing under the projected
/// coordinates `pm`, as a spatial point.
pub open spec fn origin_model(pm: ProjModel, refp: Vect, b1: (int, int, int), b2: (int, int, int))
    -> PointModel {
    PointModel {
        x: refp.x as int + b1.0 * pm.x + b2.0 * pm.y,
        y: refp.y as int + b1.1 * pm.x + b2.1 * pm.y,
        z: refp.z as int + b1.2 * pm.x + b2.2 * pm.y,
        d: 1,
    }
}

/// Where the line through `o` along `n` meets the plane through `pp` with
/// normal `pn`; `None` when the line is parallel to the plane.
pub open spec fn splane_hit(o: PointModel, pp: Vect, pn: Vect, n: Vect) -> Option<PointModel> {
    let td0 = sdot(pn, n);
    let tn0 = pn.x as int * (pp.x as int - o.x) + pn.y as int * (pp.y as int - o.y)
        + pn.z as int * (pp.z as int - o.z);
    if td0 == 0 {
        None
    } else {
        let tn = if td0 < 0 { -tn0 } else { tn0 };
        let td = if td0 < 0 { -td0 } else { td0 };
        Some(PointModel { x: o.x * td + n.x as int * tn, y: o.y * td + n.y as int * tn,
            z: o.z * td + n.z as int * tn, d: td })
    }
}

pub open spec fn model_depth_common(n: Vect, p1: PointModel, p2: PointModel) -> int {
    -(n.x as int * (p2.x - p1.x) + n.y as int * (p2.y - p1.y) + n.z as int * (p2.z - p1.z))
}

/// One vertex of the walked feature, kept if it projects inside the other
/// feature's polygon and the other feature's supporting plane is reachable
/// along the normal. `first_side` says whether the walked feature is the
/// first shape's.
pub open spec fn vert_step_model(
    va: Vect,
    ia: FeatureId,
    pa: ProjModel,
    fb: ConvexPolygonalFeature,
    polyb: Seq<ProjModel>,
    refp: Vect,
    b1: (int, int, int),
    b2: (int, int, int),
    n: Vect,
    linear: Frac,
    first_side: bool,
) -> Seq<ContactModel> {
    if spip(pa, polyb) {
        match splane_hit(origin_model(pa, refp, b1, b2), fb.vertices[0], fb.normal.unwrap(), n) {
            Some(hit) => {
                let cm = if first_side {
                    contact_model(n, pmodel_of_vect(va), hit, ia, fb.feature_id)
                } else {
                    contact_model(n, hit, pmodel_of_vect(va), fb.feature_id, ia)
                };
                if model_accepted(cm, linear) {
                    Seq::empty().push(cm)
                } else {
                    Seq::empty()
                }
            },
            None => Seq::empty(),
        }
    } else {
        Seq::empty()
    }
}

pub open spec fn verts_pass_model(
    fa_verts: Seq<Vect>,
    fa_ids: Seq<FeatureId>,
    polya: Seq<ProjModel>,
    fb: ConvexPolygonalFeature,
    polyb: Seq<ProjModel>,
    refp: Vect,
    b1: (int, int, int),
    b2: (int, int, int),
    n: Vect,
    linear: Frac,
    first_side: bool,
    i: int,
) -> Seq<ContactModel>
    decreases i,
{
    if i <= 0 {
        Seq::empty()
    } else {
        verts_pass_model(fa_verts, fa_ids, polya, fb, polyb, refp, b1, b2, n, linear, first_side,
            i - 1) + vert_step_model(fa_verts[i - 1], fa_ids[i - 1], polya[i - 1], fb, polyb,
            refp, b1, b2, n, linear, first_side)
    }
}

/// One edge pair: kept only on a true crossing, both barycentric
/// coordinates strictly interior, back-projected on the unprojected edges.
pub open spec fn edge_step_model(
    f1: ConvexPolygonalFeature,
    f2: ConvexPolygonalFeature,
    poly1: Seq<ProjModel>,
    poly2: Seq<ProjModel>,
    n: Vect,
    linear: Frac,
    i1: int,
    i2: int,
) -> Seq<ContactModel> {
    let j1 = (i1 + 1) % (poly1.len() as int);
    let j2 = (i2 + 1) % (poly2.len() as int);
    let p = poly1[i1];
    let pb = poly1[j1];
    let q = poly2[i2];
    let qb = poly2[j2];
    let d0 = scross2(pb.x - p.x, pb.y - p.y, qb.x - q.x, qb.y - q.y);
    if d0 == 0 {
        Seq::empty()
    } else {
        let t10 = scross2(q.x - p.x, q.y - p.y, qb.x - q.x, qb.y - q.y);
        let t20 = scross2(q.x - p.x, q.y - p.y, pb.x - p.x, pb.y - p.y);
        let t1 = if d0 < 0 { -t10 } else { t10 };
        let t2 = if d0 < 0 { -t20 } else { t20 };
        let d = if d0 < 0 { -d0 } else { d0 };
        if 0 < t1 && t1 < d && 0 < t2 && t2 < d {
            let w1 = pmodel_lerp(f1.vertices[i1], f1.vertices[j1], t1, d);
            let w2 = pmodel_lerp(f2.vertices[i2], f2.vertices[j2], t2, d);
            let cm = ContactModel { p1: w1, p2: w2, dn: model_depth_common(n, w1, w2), dd: d,
                f1: f1.edges_id[i1], f2: f2.edges_id[i2] };
            if model_accepted(cm, linear) {
                Seq::empty().push(cm)
            } else {
                Seq::empty()
            }
        } else {
            Seq::empty()
        }
    }
}

pub open spec fn edge_row_model(
    f1: ConvexPolygonalFeature,
    f2: ConvexPolygonalFeature,
    poly1: Seq<ProjModel>,
    poly2: Seq<ProjModel>,
    n: Vect,
    linear: Frac,
    i1: int,
    i2: int,
) -> Seq<ContactModel>
    decreases i2,
{
    if i2 <= 0 {
        Seq::empty()
    } else {
        edge_row_model(f1, f2, poly1, poly2, n, linear, i1, i2 - 1)
            + edge_step_model(f1, f2, poly1, poly2, n, linear, i1, i2 - 1)
    }
}

pub open spec fn edges_pass_model(
    f1: ConvexPolygonalFeature,
    f2: ConvexPolygonalFeature,
    poly1: Seq<ProjModel>,
    poly2: Seq<ProjModel>,
    n: Vect,
    linear: Frac,
    i1: int,
) -> Seq<ContactModel>
    decreases i1,
{
    if i1 <= 0 {
        Seq::empty()
    } else {
        edges_pass_model(f1, f2, poly1, poly2, n, linear, i1 - 1)
            + edge_row_model(f1, f2, poly1, poly2, n, linear, i1 - 1, f2.edges_id.len() as int)
    }
}

/// The whole outcome of the three-dimensional clip: both vertex-in-polygon
/// passes and the edge-crossing pass, in that order.
pub open spec fn clip3_model(
    f1: ConvexPolygonalFeature,
    f2: ConvexPolygonalFeature,
    n: Vect,
    linear: Frac,
) -> Seq<ContactModel> {
    let l1 = f1.vertices.len() as int;
    let l2 = f2.vertices.len() as int;
    if (l1 <= 2 && l2 <= 2) || l1 == 1 || l2 == 1 {
        Seq::empty()
    } else {
        let b1 = sbasis1(n);
        let b2 = sbasis2(n);
        let refp = f1.vertices[0];
        let poly1 = proj_seq(f1.vertices@, refp, b1, b2);
        let poly2 = proj_seq(f2.vertices@, refp, b1, b2);
        let pass1: Seq<ContactModel> = if l2 > 2 {
            verts_pass_model(f1.vertices@, f1.vertices_id@, poly1, f2, poly2, refp, b1, b2, n,
                linear, true, l1)
        } else {
            Seq::empty()
        };
        let pass2: Seq<ContactModel> = if l1 > 2 {
            verts_pass_model(f2.vertices@, f2.vertices_id@, poly2, f1, poly1, refp, b1, b2, n,
                linear, false, l2)
        } else {
            Seq::empty()
        };
        pass1 + pass2 + edges_pass_model(f1, f2, poly1, poly2, n, linear,
            f1.edges_id.len() as int)
    }
}

pub proof fn lemma_raws_match_push(
    s: Seq<(Contact, FeatureId, FeatureId)>,
    n: Vect,
    ms: Seq<ContactModel>,
    e: (Contact, FeatureId, FeatureId),
    m: ContactModel,
)
    requires
        raws_match(s, n, ms),
        raw_matches(e, n, m),
    ensures
        raws_match(s.push(e), n, ms.push(m)),
{
    assert forall|i: int| 0 <= i < s.push(e).len() implies raw_matches(s.push(e)[i], n,
        ms.push(m)[i]) by {
        if i < s.len() {
            assert(raw_matches(s[i], n, ms[i]));
        }
    }
}

/// Exact two-dimensional cross product of bounded values.
fn cross2_ck(ax: i128, ay: i128, bx: i128, by: i128, Ghost(ba): Ghost<int>, Ghost(bb): Ghost<int>)
    -> (r: i128)
    requires
        0 <= ba, 0 <= bb,
        -ba <= ax as int, ax as int <= ba,
        -ba <= ay as int, ay as int <= ba,
        -bb <= bx as int, bx as int <= bb,
        -bb <= by as int, by as int <= bb,
        2 * (ba * bb) <= i128::MAX as int,
    ensures
        r as int == scross2(ax as int, ay as int, bx as int, by as int),
        -(2 * (ba * bb)) <= r as int, r as int <= 2 * (ba * bb),
{
    mul_ck(ax, by, Ghost(ba), Ghost(bb)) - mul_ck(ay, bx, Ghost(ba), Ghost(bb))
}

/// The executable point-in-convex-polygon test, deciding `spip` exactly.
fn point_in_poly(pt: &ProjPoint, poly: &Vec<ProjPoint>, Ghost(pm): Ghost<Seq<ProjModel>>)
    -> (r: bool)
    requires
        proj_matches(poly@, pm),
        poly@.len() >= 1,
        -824633720832 <= pt.x as int, pt.x as int <= 824633720832,
        -824633720832 <= pt.y as int, pt.y as int <= 824633720832,
        forall|i: int| 0 <= i < poly@.len()
            ==> -824633720832 <= (#[trigger] poly@[i]).x as int
                && poly@[i].x as int <= 824633720832
                && -824633720832 <= poly@[i].y as int && poly@[i].y as int <= 824633720832,
    ensures
        r == spip(ProjModel { x: pt.x as int, y: pt.y as int }, pm),
{
    let ghost ptm = ProjModel { x: pt.x as int, y: pt.y as int };
    let n = poly.len();
    let mut has_pos = false;
    let mut has_neg = false;
    let mut i: usize = 0;
    while i < n
        invariant
            proj_matches(poly@, pm),
            n == poly@.len(), n >= 1,
            0 <= i <= n,
            -824633720832 <= pt.x as int, pt.x as int <= 824633720832,
            -824633720832 <= pt.y as int, pt.y as int <= 824633720832,
            forall|k: int| 0 <= k < poly@.len()
                ==> -824633720832 <= (#[trigger] poly@[k]).x as int
                    && poly@[k].x as int <= 824633720832
                    && -824633720832 <= poly@[k].y as int && poly@[k].y as int <= 824633720832,
            ptm == (ProjModel { x: pt.x as int, y: pt.y as int }),
            has_pos == exists|k: int| 0 <= k < i
                && #[trigger] sperp(ptm, pm[k], pm[(k + 1) % (pm.len() as int)]) > 0,
            has_neg == exists|k: int| 0 <= k < i
                && #[trigger] sperp(ptm, pm[k], pm[(k + 1) % (pm.len() as int)]) < 0,
        decreases n - i,
    {
        let a = poly[i];
        let j = (i + 1) % n;
        let b = poly[j];
        let perp = cross2_ck(pt.x - a.x, pt.y - a.y, b.x - a.x, b.y - a.y,
            Ghost(1649267441664), Ghost(1649267441664));
        proof {
            assert(j as int == (i as int + 1) % (n as int));
            assert(perp as int == sperp(ptm, pm[i as int], pm[(i as int + 1) % (pm.len() as int)]));
        }
        if perp > 0 {
            has_pos = true;
        }
        if perp < 0 {
            has_neg = true;
        }
        i += 1;
    }
    proof {
        if !(has_pos && has_neg) {
            if !has_pos {
                assert(forall|k: int| 0 <= k < pm.len()
                    ==> #[trigger] sperp(ptm, pm[k], pm[(k + 1) % (pm.len() as int)]) <= 0);
            } else {
                assert(forall|k: int| 0 <= k < pm.len()
                    ==> #[trigger] sperp(ptm, pm[k], pm[(k + 1) % (pm.len() as int)]) >= 0);
            }
        }
    }
    !(has_pos && has_neg)
}

/// Recovers the spatial point of the projection plane under `(px, py)` and
/// casts it along `n` onto the plane through `pp` with normal `pn`; exact,
/// `None` when the normal is parallel to that plane.
fn plane_hit(
    px: i128,
    py: i128,
    refp: &Vect,
    b1: &Vect,
    b2: &Vect,
    pp: &Vect,
    pn: &Vect,
    n: &Vect,
) -> (r: Option<FracVect>)
    requires
        refp.ok(), pp.ok(), pn.ok(), n.ok(),
        vt(*b1) == sbasis1(*n),
        vt(*b2) == sbasis2(*n),
        -100663296 <= px as int, px as int <= 100663296,
        -824633720832 <= py as int, py as int <= 824633720832,
    ensures
        match r {
            Some(w) => {
                &&& splane_hit(origin_model((ProjModel { x: px as int, y: py as int }), *refp,
                    vt(*b1), vt(*b2)), *pp, *pn, *n) matches Some(m) && pmodel_matches(w, m)
                &&& w.wf()
                &&& w.bounded(3000000000000000000000000000, 50331648)
            },
            None => splane_hit(origin_model((ProjModel { x: px as int, y: py as int }), *refp,
                vt(*b1), vt(*b2)), *pp, *pn, *n) is None,
        },
{
    proof {
        assert(-4096 <= b1.x as int && b1.x as int <= 4096 && -4096 <= b1.y as int
            && b1.y as int <= 4096 && -4096 <= b1.z as int && b1.z as int <= 4096);
        assert(-33554432 <= b2.x as int && b2.x as int <= 33554432 && -33554432 <= b2.y as int
            && b2.y as int <= 33554432 && -33554432 <= b2.z as int && b2.z as int <= 33554432)
            by (nonlinear_arith)
            requires vt(*b2) == sbasis2(*n), n.ok();
    }
    let ox = refp.x as i128 + mul_ck(b1.x as i128, px, Ghost(4096), Ghost(100663296))
        + mul_ck(b2.x as i128, py, Ghost(33554432), Ghost(824633720832));
    let oy = refp.y as i128 + mul_ck(b1.y as i128, px, Ghost(4096), Ghost(100663296))
        + mul_ck(b2.y as i128, py, Ghost(33554432), Ghost(824633720832));
    let oz = refp.z as i128 + mul_ck(b1.z as i128, px, Ghost(4096), Ghost(100663296))
        + mul_ck(b2.z as i128, py, Ghost(33554432), Ghost(824633720832));
    let ghost ob: int = 27670116522881191936;
    let td0 = mul_ck(pn.x as i128, n.x as i128, Ghost(4096), Ghost(4096))
        + mul_ck(pn.y as i128, n.y as i128, Ghost(4096), Ghost(4096))
        + mul_ck(pn.z as i128, n.z as i128, Ghost(4096), Ghost(4096));
    let tn0 = mul_ck(pn.x as i128, pp.x as i128 - ox, Ghost(4096), Ghost(27670116522881196032))
        + mul_ck(pn.y as i128, pp.y as i128 - oy, Ghost(4096), Ghost(27670116522881196032))
        + mul_ck(pn.z as i128, pp.z as i128 - oz, Ghost(4096), Ghost(27670116522881196032));
    if td0 == 0 {
        return None;
    }
    let (tn, td) = if td0 < 0 { (-tn0, -td0) } else { (tn0, td0) };
    let ghost tb: int = 340010391833164136841216;
    let nx = mul_ck(ox, td, Ghost(ob), Ghost(50331648))
        + mul_ck(n.x as i128, tn, Ghost(4096), Ghost(tb));
    let ny = mul_ck(oy, td, Ghost(ob), Ghost(50331648))
        + mul_ck(n.y as i128, tn, Ghost(4096), Ghost(tb));
    let nz = mul_ck(oz, td, Ghost(ob), Ghost(50331648))
        + mul_ck(n.z as i128, tn, Ghost(4096), Ghost(tb));
    Some(FracVect { nx, ny, nz, den: td })
}

/// All projections stored in a scratch buffer agree with their models and
/// sit within the bounds that keep later products in `i128`.
pub open spec fn proj_ok(c: Seq<ProjPoint>, m: Seq<ProjModel>) -> bool {
    &&& c.len() == m.len()
    &&& forall|i: int| 0 <= i < c.len()
        ==> (#[trigger] c[i]).x as int == m[i].x && c[i].y as int == m[i].y
            && -100663296 <= c[i].x as int && c[i].x as int <= 100663296
            && -824633720832 <= c[i].y as int && c[i].y as int <= 824633720832
}

/// Clips two polygonal features (the three-dimensional path): projects both
/// vertex loops into a basis orthogonal to the normal, keeps every vertex
/// projecting inside the other feature's polygon, then every true
/// edge-against-edge crossing. `out` is rebuilt from scratch.
///
/// Arithmetic is exact, so boundary cases are decided deterministically: a
/// vertex projecting exactly onto the other polygon's boundary counts as
/// inside (no perpendicular product changes sign), and an edge pair that
/// merely touches at an endpoint, or overlaps collinearly, is not a true
/// crossing and contributes nothing.
pub fn clip_polygons(
    f1: &ConvexPolygonalFeature,
    f2: &ConvexPolygonalFeature,
    n: &Vect,
    prediction: &ContactPrediction,
    cache: &mut ClippingCache,
    out: &mut Vec<(Contact, FeatureId, FeatureId)>,
)
    requires
        f1.wf(), f2.wf(),
        f1.vertices@.len() >= 1, f2.vertices@.len() >= 1,
        n.ok(), !n.is_zero(),
        prediction.wf(),
    ensures
        raws_match(final(out)@, *n, clip3_model(*f1, *f2, *n, prediction.linear)),
{
    let ghost lin = prediction.linear;
    out.clear();
    cache.clear();
    let l1 = f1.vertices.len();
    let l2 = f2.vertices.len();
    if (l1 <= 2 && l2 <= 2) || l1 == 1 || l2 == 1 {
        proof {
            assert(out@ =~= Seq::<(Contact, FeatureId, FeatureId)>::empty());
        }
        return;
    }
    let b1 = if n.x == 0 && n.y == 0 {
        Vect { x: 1, y: 0, z: 0 }
    } else {
        Vect { x: -n.y, y: n.x, z: 0 }
    };
    proof {
        lemma_mul_bound(n.x as int, b1.y as int, 4096, 4096);
        lemma_mul_bound(n.x as int, b1.z as int, 4096, 4096);
        lemma_mul_bound(n.y as int, b1.x as int, 4096, 4096);
        lemma_mul_bound(n.y as int, b1.z as int, 4096, 4096);
        lemma_mul_bound(n.z as int, b1.x as int, 4096, 4096);
        lemma_mul_bound(n.z as int, b1.y as int, 4096, 4096);
    }
    let b2 = Vect {
        x: n.y * b1.z - n.z * b1.y,
        y: n.z * b1.x - n.x * b1.z,
        z: n.x * b1.y - n.y * b1.x,
    };
    proof {
        assert(vt(b1) == sbasis1(*n));
        assert(vt(b2) == sbasis2(*n));
    }
    let refp = f1.vertices[0];
    proof {
        assert(f1.vertices[0].ok());
    }
    let ghost sb1 = sbasis1(*n);
    let ghost sb2 = sbasis2(*n);
    let ghost pm1 = proj_seq(f1.vertices@, refp, sb1, sb2);
    let ghost pm2 = proj_seq(f2.vertices@, refp, sb1, sb2);
    let mut k1: usize = 0;
    while k1 < l1
        invariant
            f1.wf(), n.ok(),
            vt(b1) == sbasis1(*n), vt(b2) == sbasis2(*n),
            refp == f1.vertices@[0], refp.ok(),
            l1 == f1.vertices@.len(), 0 <= k1 <= l1,
            pm1 == proj_seq(f1.vertices@, refp, sbasis1(*n), sbasis2(*n)),
            -33554432 <= b2.x as int, b2.x as int <= 33554432,
            -33554432 <= b2.y as int, b2.y as int <= 33554432,
            -33554432 <= b2.z as int, b2.z as int <= 33554432,
            cache.poly1@.len() == k1,
            cache.poly2@.len() == 0,
            proj_ok(cache.poly1@, pm1.subrange(0, k1 as int)),
        decreases l1 - k1,
    {
        let v = f1.vertices[k1];
        let px = dot_diff(&v, &refp, &b1, Ghost(4096));
        let py = dot_diff(&v, &refp, &b2, Ghost(33554432));
        proof {
            assert(sdot_diff(v, refp, b1) == sdot_difft(v, refp, sbasis1(*n)));
            assert(sdot_diff(v, refp, b2) == sdot_difft(v, refp, sbasis2(*n)));
        }
        cache.poly1.push(ProjPoint { x: px, y: py });
        k1 += 1;
    }
    let mut k2: usize = 0;
    while k2 < l2
        invariant
            f2.wf(), n.ok(),
            vt(b1) == sbasis1(*n), vt(b2) == sbasis2(*n),
            refp.ok(),
            l2 == f2.vertices@.len(), 0 <= k2 <= l2,
            pm2 == proj_seq(f2.vertices@, refp, sbasis1(*n), sbasis2(*n)),
            -33554432 <= b2.x as int, b2.x as int <= 33554432,
            -33554432 <= b2.y as int, b2.y as int <= 33554432,
            -33554432 <= b2.z as int, b2.z as int <= 33554432,
            cache.poly1@.len() == pm1.len(),
            proj_ok(cache.poly1@, pm1),
            cache.poly2@.len() == k2,
            proj_ok(cache.poly2@, pm2.subrange(0, k2 as int)),
        decreases l2 - k2,
    {
        let v = f2.vertices[k2];
        let px = dot_diff(&v, &refp, &b1, Ghost(4096));
        let py = dot_diff(&v, &refp, &b2, Ghost(33554432));
        proof {
            assert(sdot_diff(v, refp, b1) == sdot_difft(v, refp, sbasis1(*n)));
            assert(sdot_diff(v, refp, b2) == sdot_difft(v, refp, sbasis2(*n)));
        }
        cache.poly2.push(ProjPoint { x: px, y: py });
        k2 += 1;
    }
    proof {
        assert(pm1.subrange(0, pm1.len() as int) =~= pm1);
        assert(pm2.subrange(0, pm2.len() as int) =~= pm2);
        assert(proj_ok(cache.poly1@, pm1));
        assert(proj_ok(cache.poly2@, pm2));
    }
    let ghost pass1m: Seq<ContactModel> = if l2 > 2 {
        verts_pass_model(f1.vertices@, f1.vertices_id@, pm1, *f2, pm2, refp, sb1, sb2, *n, lin,
            true, l1 as int)
    } else {
        Seq::empty()
    };
    let ghost pass2m: Seq<ContactModel> = if l1 > 2 {
        verts_pass_model(f2.vertices@, f2.vertices_id@, pm2, *f1, pm1, refp, sb1, sb2, *n, lin,
            false, l2 as int)
    } else {
        Seq::empty()
    };
    // First pass: vertices of the first feature against the second polygon.
    if l2 > 2 {
        let mut i: usize = 0;
        while i < l1
            invariant
                f1.wf(), f2.wf(), n.ok(), prediction.wf(), lin == prediction.linear,
                vt(b1) == sbasis1(*n), vt(b2) == sbasis2(*n),
                sb1 == sbasis1(*n), sb2 == sbasis2(*n),
                refp == f1.vertices@[0], refp.ok(),
                l1 == f1.vertices@.len(), l2 == f2.vertices@.len(), l2 > 2,
                0 <= i <= l1,
                proj_ok(cache.poly1@, pm1), proj_ok(cache.poly2@, pm2),
                pm1.len() == l1, pm2.len() == l2,
                raws_match(out@, *n, verts_pass_model(f1.vertices@, f1.vertices_id@, pm1, *f2,
                    pm2, refp, sb1, sb2, *n, lin, true, i as int)),
            decreases l1 - i,
        {
            let ghost prev = verts_pass_model(f1.vertices@, f1.vertices_id@, pm1, *f2, pm2, refp,
                sb1, sb2, *n, lin, true, i as int);
            let ghost stepm = vert_step_model(f1.vertices@[i as int], f1.vertices_id@[i as int],
                pm1[i as int], *f2, pm2, refp, sb1, sb2, *n, lin, true);
            let p = cache.poly1[i];
            proof {
                assert(pm1[i as int] == (ProjModel { x: p.x as int, y: p.y as int }));
            }
            if point_in_poly(&p, &cache.poly2, Ghost(pm2)) {
                let pp = f2.vertices[0];
                let pn = f2.normal.unwrap();
                match plane_hit(p.x, p.y, &refp, &b1, &b2, &pp, &pn, n) {
                    Some(w2) => {
                        let w1 = FracVect::from_vect(&f1.vertices[i]);
                        let depth = contact_depth(n, &w1, &w2, Ghost(4096), Ghost(1),
                            Ghost(3000000000000000000000000000), Ghost(50331648));
                        let c = Contact { world1: w1, world2: w2, normal: *n, depth };
                        let fa = f1.vertices_id[i];
                        let fb = f2.feature_id;
                        if accepted(depth, prediction.linear,
                            Ghost(12288int * (3000000000000000000000000000 * 1 + 4096 * 50331648)),
                            Ghost(50331648)) {
                            proof {
                                assert(stepm.len() == 1 && raw_matches((c, fa, fb), *n, stepm[0]));
                            }
                            let ghost outsnap = out@;
                            out.push((c, fa, fb));
                            proof {
                                lemma_raws_match_push(outsnap, *n, prev, (c, fa, fb), stepm[0]);
                                assert(prev + stepm =~= prev.push(stepm[0]));
                            }
                        } else {
                            proof {
                                assert(stepm =~= Seq::<ContactModel>::empty());
                                assert(prev + stepm =~= prev);
                            }
                        }
                    },
                    None => {
                        proof {
                            assert(stepm =~= Seq::<ContactModel>::empty());
                            assert(prev + stepm =~= prev);
                        }
                    },
                }
            } else {
                proof {
                    assert(stepm =~= Seq::<ContactModel>::empty());
                    assert(prev + stepm =~= prev);
                }
            }
            proof {
                assert(verts_pass_model(f1.vertices@, f1.vertices_id@, pm1, *f2, pm2, refp, sb1,
                    sb2, *n, lin, true, i as int + 1) == prev + stepm);
                assert(raws_match(out@, *n, prev + stepm));
            }
            i += 1;
        }
    }
    proof {
        assert(raws_match(out@, *n, pass1m));
    }
    // Second pass: vertices of the second feature against the first polygon.
    if l1 > 2 {
        let mut i: usize = 0;
        while i < l2
            invariant
                f1.wf(), f2.wf(), n.ok(), prediction.wf(), lin == prediction.linear,
                vt(b1) == sbasis1(*n), vt(b2) == sbasis2(*n),
                sb1 == sbasis1(*n), sb2 == sbasis2(*n),
                refp == f1.vertices@[0], refp.ok(),
                l1 == f1.vertices@.len(), l2 == f2.vertices@.len(), l1 > 2,
                0 <= i <= l2,
                proj_ok(cache.poly1@, pm1), proj_ok(cache.poly2@, pm2),
                pm1.len() == l1, pm2.len() == l2,
                raws_match(out@, *n, pass1m + verts_pass_model(f2.vertices@, f2.vertices_id@,
                    pm2, *f1, pm1, refp, sb1, sb2, *n, lin, false, i as int)),
            decreases l2 - i,
        {
            let ghost prev = pass1m + verts_pass_model(f2.vertices@, f2.vertices_id@, pm2, *f1,
                pm1, refp, sb1, sb2, *n, lin, false, i as int);
            let ghost stepm = vert_step_model(f2.vertices@[i as int], f2.vertices_id@[i as int],
                pm2[i as int], *f1, pm1, refp, sb1, sb2, *n, lin, false);
            let p = cache.poly2[i];
            proof {
                assert(pm2[i as int] == (ProjModel { x: p.x as int, y: p.y as int }));
            }
            if point_in_poly(&p, &cache.poly1, Ghost(pm1)) {
                let pp = f1.vertices[0];
                let pn = f1.normal.unwrap();
                match plane_hit(p.x, p.y, &refp, &b1, &b2, &pp, &pn, n) {
                    Some(w1) => {
                        let w2 = FracVect::from_vect(&f2.vertices[i]);
                        let depth = contact_depth(n, &w1, &w2,
                            Ghost(3000000000000000000000000000), Ghost(50331648), Ghost(4096),
                            Ghost(1));
                        let c = Contact { world1: w1, world2: w2, normal: *n, depth };
                        let fa = f1.feature_id;
                        let fb = f2.vertices_id[i];
                        if accepted(depth, prediction.linear,
                            Ghost(12288int * (4096 * 50331648 + 3000000000000000000000000000 * 1)),
                            Ghost(50331648)) {
                            proof {
                                assert(stepm.len() == 1 && raw_matches((c, fa, fb), *n, stepm[0]));
                            }
                            let ghost outsnap = out@;
                            out.push((c, fa, fb));
                            proof {
                                lemma_raws_match_push(outsnap, *n, prev, (c, fa, fb), stepm[0]);
                                assert(prev + stepm =~= prev.push(stepm[0]));
                            }
                        } else {
                            proof {
                                assert(stepm =~= Seq::<ContactModel>::empty());
                                assert(prev + stepm =~= prev);
                            }
                        }
                    },
                    None => {
                        proof {
                            assert(stepm =~= Seq::<ContactModel>::empty());
                            assert(prev + stepm =~= prev);
                        }
                    },
                }
            } else {
                proof {
                    assert(stepm =~= Seq::<ContactModel>::empty());
                    assert(prev + stepm =~= prev);
                }
            }
            proof {
                assert(verts_pass_model(f2.vertices@, f2.vertices_id@, pm2, *f1, pm1, refp, sb1,
                    sb2, *n, lin, false, i as int + 1) == verts_pass_model(f2.vertices@,
                    f2.vertices_id@, pm2, *f1, pm1, refp, sb1, sb2, *n, lin, false, i as int)
                    + stepm);
                assert(pass1m + (verts_pass_model(f2.vertices@, f2.vertices_id@, pm2, *f1, pm1,
                    refp, sb1, sb2, *n, lin, false, i as int) + stepm) =~= prev + stepm);
                assert(raws_match(out@, *n, prev + stepm));
            }
            i += 1;
        }
    }
    proof {
        assert(raws_match(out@, *n, pass1m + pass2m)) by {
            if l1 <= 2 {
                assert(pass1m + pass2m =~= pass1m);
            }
        };
    }
    // Edge pass: every pair of boundary edges, one from each feature.
    let ne1 = f1.edges_id.len();
    let ne2 = f2.edges_id.len();
    let mut i1: usize = 0;
    while i1 < ne1
        invariant
            f1.wf(), f2.wf(), n.ok(), prediction.wf(), lin == prediction.linear,
            refp == f1.vertices@[0],
            l1 == f1.vertices@.len(), l2 == f2.vertices@.len(),
            l1 >= 2, l2 >= 2,
            ne1 == f1.edges_id@.len(), ne2 == f2.edges_id@.len(),
            0 <= i1 <= ne1,
            proj_ok(cache.poly1@, pm1), proj_ok(cache.poly2@, pm2),
            pm1.len() == l1, pm2.len() == l2,
            raws_match(out@, *n, pass1m + pass2m + edges_pass_model(*f1, *f2, pm1, pm2, *n, lin,
                i1 as int)),
        decreases ne1 - i1,
    {
        let j1 = (i1 + 1) % l1;
        let mut i2: usize = 0;
        while i2 < ne2
            invariant
                f1.wf(), f2.wf(), n.ok(), prediction.wf(), lin == prediction.linear,
                refp == f1.vertices@[0],
                l1 == f1.vertices@.len(), l2 == f2.vertices@.len(),
                l1 >= 2, l2 >= 2,
                ne1 == f1.edges_id@.len(), ne2 == f2.edges_id@.len(),
                0 <= i1 < ne1, 0 <= i2 <= ne2,
                j1 as int == (i1 as int + 1) % (l1 as int),
                proj_ok(cache.poly1@, pm1), proj_ok(cache.poly2@, pm2),
                pm1.len() == l1, pm2.len() == l2,
                raws_match(out@, *n, pass1m + pass2m + edges_pass_model(*f1, *f2, pm1, pm2, *n,
                    lin, i1 as int) + edge_row_model(*f1, *f2, pm1, pm2, *n, lin, i1 as int,
                    i2 as int)),
            decreases ne2 - i2,
        {
            let ghost prev = pass1m + pass2m + edges_pass_model(*f1, *f2, pm1, pm2, *n, lin,
                i1 as int) + edge_row_model(*f1, *f2, pm1, pm2, *n, lin, i1 as int, i2 as int);
            let ghost stepm = edge_step_model(*f1, *f2, pm1, pm2, *n, lin, i1 as int, i2 as int);
            let j2 = (i2 + 1) % l2;
            proof {
                assert(j1 as int == (i1 as int + 1) % (pm1.len() as int));
                assert(j2 as int == (i2 as int + 1) % (pm2.len() as int));
            }
            let p = cache.poly1[i1];
            let pb = cache.poly1[j1];
            let q = cache.poly2[i2];
            let qb = cache.poly2[j2];
            let rx = pb.x - p.x;
            let ry = pb.y - p.y;
            let sx = qb.x - q.x;
            let sy = qb.y - q.y;
            let d0 = cross2_ck(rx, ry, sx, sy, Ghost(1649267441664), Ghost(1649267441664));
            let mut pushed = false;
            if d0 != 0 {
                let t10 = cross2_ck(q.x - p.x, q.y - p.y, sx, sy, Ghost(1649267441664),
                    Ghost(1649267441664));
                let t20 = cross2_ck(q.x - p.x, q.y - p.y, rx, ry, Ghost(1649267441664),
                    Ghost(1649267441664));
                let t1 = if d0 < 0 { -t10 } else { t10 };
                let t2 = if d0 < 0 { -t20 } else { t20 };
                let d = if d0 < 0 { -d0 } else { d0 };
                if 0 < t1 && t1 < d && 0 < t2 && t2 < d {
                    let w1 = lerp(&f1.vertices[i1], &f1.vertices[j1], t1, d,
                        Ghost(6000000000000000000000000));
                    let w2 = lerp(&f2.vertices[i2], &f2.vertices[j2], t2, d,
                        Ghost(6000000000000000000000000));
                    let depth = contact_depth_common(n, &w1, &w2,
                        Ghost(12288int * 6000000000000000000000000));
                    let c = Contact { world1: w1, world2: w2, normal: *n, depth };
                    let e1 = f1.edges_id[i1];
                    let e2 = f2.edges_id[i2];
                    if accepted(depth, prediction.linear,
                        Ghost(24576int * (12288 * 6000000000000000000000000)),
                        Ghost(6000000000000000000000000)) {
                        proof {
                            assert(stepm.len() == 1 && raw_matches((c, e1, e2), *n, stepm[0]));
                        }
                        let ghost outsnap = out@;
                        out.push((c, e1, e2));
                        pushed = true;
                        proof {
                            lemma_raws_match_push(outsnap, *n, prev, (c, e1, e2), stepm[0]);
                            assert(prev + stepm =~= prev.push(stepm[0]));
                        }
                    }
                }
            }
            proof {
                if !pushed {
                    assert(stepm =~= Seq::<ContactModel>::empty());
                    assert(prev + stepm =~= prev);
                }
                assert(edge_row_model(*f1, *f2, pm1, pm2, *n, lin, i1 as int, i2 as int + 1)
                    == edge_row_model(*f1, *f2, pm1, pm2, *n, lin, i1 as int, i2 as int) + stepm);
                assert(pass1m + pass2m + edges_pass_model(*f1, *f2, pm1, pm2, *n, lin, i1 as int)
                    + (edge_row_model(*f1, *f2, pm1, pm2, *n, lin, i1 as int, i2 as int) + stepm)
                    =~= prev + stepm);
                assert(raws_match(out@, *n, prev + stepm));
            }
            i2 += 1;
        }
        proof {
            assert(edges_pass_model(*f1, *f2, pm1, pm2, *n, lin, i1 as int + 1)
                == edges_pass_model(*f1, *f2, pm1, pm2, *n, lin, i1 as int)
                    + edge_row_model(*f1, *f2, pm1, pm2, *n, lin, i1 as int, ne2 as int));
            assert(pass1m + pass2m + (edges_pass_model(*f1, *f2, pm1, pm2, *n, lin, i1 as int)
                + edge_row_model(*f1, *f2, pm1, pm2, *n, lin, i1 as int, ne2 as int))
                =~= pass1m + pass2m + edges_pass_model(*f1, *f2, pm1, pm2, *n, lin,
                    i1 as int + 1));
        }
        i1 += 1;
    }
    proof {
        assert(clip3_model(*f1, *f2, *n, prediction.linear) == pass1m + pass2m
            + edges_pass_model(*f1, *f2, pm1, pm2, *n, lin, ne1 as int));
    }
}
/// The point stands on the segment joining `a` and `b`: it interpolates the
/// two endpoints, in one order or the other, with a coordinate in `[0, 1]`.
pub open spec fn on_segment(p: PointModel, a: Vect, b: Vect) -> bool {
    exists|tn: int, td: int|
        0 < td && 0 <= tn <= td
            && (p == pmodel_lerp(a, b, tn, td) || p == pmodel_lerp(b, a, tn, td))
}

/// The two-dimensional clipper's guarantees: whenever the projections of the
/// two segments onto the axis orthogonal to the normal overlap, it yields at
/// most two contacts; every contact passes the margin test `-depth <=
/// linear`, and each of its two points interpolates its own feature's
/// segment with a coordinate in `[0, 1]`.
pub proof fn lemma_clip2_properties(
    f1: ConvexPolygonalFeature,
    f2: ConvexPolygonalFeature,
    n: Vect,
    linear: Frac,
)
    requires
        f1.wf(), f2.wf(),
    ensures
        clip2_model(f1, f2, n, linear).len() <= 2,
        forall|k: int| 0 <= k < clip2_model(f1, f2, n, linear).len()
            ==> model_accepted(#[trigger] clip2_model(f1, f2, n, linear)[k], linear),
        forall|k: int| 0 <= k < clip2_model(f1, f2, n, linear).len()
            ==> on_segment((#[trigger] clip2_model(f1, f2, n, linear)[k]).p1, f1.vertices[0],
                f1.vertices[1]) && on_segment(clip2_model(f1, f2, n, linear)[k].p2,
                f2.vertices[0], f2.vertices[1]),
{
    let ms = clip2_model(f1, f2, n, linear);
    if f1.vertices.len() <= 1 || f2.vertices.len() <= 1 {
    } else {
        let a1 = f1.vertices[0];
        let b1 = f1.vertices[1];
        let a2 = f2.vertices[0];
        let b2 = f2.vertices[1];
        assert forall|k: int| 0 <= k < ms.len() implies model_accepted(#[trigger] ms[k], linear)
            && on_segment(ms[k].p1, a1, b1) && on_segment(ms[k].p2, a2, b2) by {
            lemma_clip2_candidate_on(f1, f2, n, linear, k);
        }
    }
}

proof fn lemma_clip2_candidate_on(
    f1: ConvexPolygonalFeature,
    f2: ConvexPolygonalFeature,
    n: Vect,
    linear: Frac,
    k: int,
)
    requires
        f1.wf(), f2.wf(),
        f1.vertices.len() >= 2, f2.vertices.len() >= 2,
        0 <= k < clip2_model(f1, f2, n, linear).len(),
    ensures
        model_accepted(clip2_model(f1, f2, n, linear)[k], linear),
        on_segment(clip2_model(f1, f2, n, linear)[k].p1, f1.vertices[0], f1.vertices[1]),
        on_segment(clip2_model(f1, f2, n, linear)[k].p2, f2.vertices[0], f2.vertices[1]),
{
    let m = clip2_model(f1, f2, n, linear)[k];
    let a1 = f1.vertices[0];
    let b1 = f1.vertices[1];
    let a2 = f2.vertices[0];
    let b2 = f2.vertices[1];
    let r1a = sproj2(a1, a1, n);
    let r1b = sproj2(b1, a1, n);
    let r2a = sproj2(a2, a1, n);
    let r2b = sproj2(b2, a1, n);
    let s1 = r1b < r1a;
    let s2 = r2b < r2a;
    let l1 = if s1 { r1b } else { r1a };
    let h1 = if s1 { r1a } else { r1b };
    let lo1 = if s1 { b1 } else { a1 };
    let hi1 = if s1 { a1 } else { b1 };
    let l2 = if s2 { r2b } else { r2a };
    let h2 = if s2 { r2a } else { r2b };
    let lo2 = if s2 { b2 } else { a2 };
    let hi2 = if s2 { a2 } else { b2 };
    let ilo1 = if s1 { f1.vertices_id[1] } else { f1.vertices_id[0] };
    let ihi1 = if s1 { f1.vertices_id[0] } else { f1.vertices_id[1] };
    let ilo2 = if s2 { f2.vertices_id[1] } else { f2.vertices_id[0] };
    let ihi2 = if s2 { f2.vertices_id[0] } else { f2.vertices_id[1] };
    assert(!(l2 > h1 || l1 > h2));
    let ca = clip2_candidate(true, l1, h1, lo1, hi1, ilo1, ihi1, f1.feature_id, l2, h2, lo2,
        hi2, ilo2, ihi2, f2.feature_id, n);
    let cb = clip2_candidate(false, l1, h1, lo1, hi1, ilo1, ihi1, f1.feature_id, l2, h2, lo2,
        hi2, ilo2, ihi2, f2.feature_id, n);
    assert((m == ca && model_accepted(ca, linear)) || (m == cb && model_accepted(cb, linear)));
    if m == ca {
        if l2 > l1 {
            lemma_seg_witness(m.p1, a1, b1, lo1, hi1, l2 - l1, h1 - l1);
            lemma_seg_witness(m.p2, a2, b2, lo2, hi2, 0, 1);
        } else {
            lemma_seg_witness(m.p1, a1, b1, lo1, hi1, 0, 1);
            if h2 - l2 == 0 {
                lemma_seg_witness(m.p2, a2, b2, lo2, hi2, 0, 1);
            } else {
                lemma_seg_witness(m.p2, a2, b2, lo2, hi2, l1 - l2, h2 - l2);
            }
        }
    } else {
        if h2 < h1 {
            lemma_seg_witness(m.p1, a1, b1, lo1, hi1, h2 - l1, h1 - l1);
            lemma_seg_witness(m.p2, a2, b2, hi2, lo2, 0, 1);
        } else {
            lemma_seg_witness(m.p1, a1, b1, hi1, lo1, 0, 1);
            if h2 - l2 == 0 {
                lemma_seg_witness(m.p2, a2, b2, lo2, hi2, 0, 1);
            } else {
                lemma_seg_witness(m.p2, a2, b2, lo2, hi2, h1 - l2, h2 - l2);
            }
        }
    }
}

/// Introduces the interpolation witness for one produced point: the sorted
/// endpoints are the segment's own two vertices, in one order or the other.
proof fn lemma_seg_witness(
    p: PointModel,
    a: Vect,
    b: Vect,
    lo: Vect,
    hi: Vect,
    tn: int,
    td: int,
)
    requires
        0 < td, 0 <= tn, tn <= td,
        p == pmodel_lerp(lo, hi, tn, td) || p == pmodel_of_vect(lo) && tn == 0 && td == 1,
        (lo == a && hi == b) || (lo == b && hi == a),
    ensures
        on_segment(p, a, b),
{
    assert(pmodel_of_vect(lo) == pmodel_lerp(lo, hi, 0, 1));
    if lo == a && hi == b {
        assert(p == pmodel_lerp(a, b, tn, td));
    } else {
        assert(p == pmodel_lerp(b, a, tn, td));
    }
}

/// The negation of a bounded integer vector, exact.
pub open spec fn vneg(v: Vect) -> Vect {
    Vect { x: (-(v.x as int)) as i64, y: (-(v.y as int)) as i64, z: (-(v.z as int)) as i64 }
}

/// The depth half of the A-B symmetry: swapping which shape is first and
/// negating the contact normal leaves every contact's depth unchanged — the
/// same value over the same denominator.
pub proof fn lemma_depth_swap_symmetry(n: Vect, p1: PointModel, p2: PointModel)
    requires
        n.ok(),
    ensures
        model_depth_num(vneg(n), p2, p1) == model_depth_num(n, p1, p2),
        p2.d * p1.d == p1.d * p2.d,
{
    assert((-(n.x as int)) as i64 as int == -(n.x as int));
    assert((-(n.y as int)) as i64 as int == -(n.y as int));
    assert((-(n.z as int)) as i64 as int == -(n.z as int));
    assert(model_depth_num(vneg(n), p2, p1) == model_depth_num(n, p1, p2)) by (nonlinear_arith)
        requires
            vneg(n).x as int == -(n.x as int),
            vneg(n).y as int == -(n.y as int),
            vneg(n).z as int == -(n.z as int);
    assert(p2.d * p1.d == p1.d * p2.d) by (nonlinear_arith);
}

/// Reading an interpolation from the other end of the segment.
proof fn lemma_lerp_reverse(a: Vect, b: Vect, tn: int, td: int)
    ensures
        pmodel_lerp(a, b, tn, td) == pmodel_lerp(b, a, td - tn, td),
{
    assert(slerp_num(a.x as int, b.x as int, tn, td)
        == slerp_num(b.x as int, a.x as int, td - tn, td)) by (nonlinear_arith);
    assert(slerp_num(a.y as int, b.y as int, tn, td)
        == slerp_num(b.y as int, a.y as int, td - tn, td)) by (nonlinear_arith);
    assert(slerp_num(a.z as int, b.z as int, tn, td)
        == slerp_num(b.z as int, a.z as int, td - tn, td)) by (nonlinear_arith);
}

/// A-B symmetry of the two-dimensional clip, on sorted projections in
/// general position (distinct interval starts and ends, segments of
/// positive projected length). Reflecting the clipping axis exchanges the
/// two segments' roles and maps every projection `r` to `c - r`, so the
/// swapped run sees the reflected sorted intervals, the low and high ends
/// exchanged, and the negated normal. It then produces the same contacts:
/// the order reversed, the two points and feature ids of each contact
/// exchanged, and the depth unchanged — the same value over the same
/// denominator, so also the same margin decisions.
/// Pointwise, in reversed order: each contact of `sw` is a contact of `ms`
/// with the two points and feature ids exchanged and the depth unchanged.
pub open spec fn contacts_swapped(sw: Seq<ContactModel>, ms: Seq<ContactModel>) -> bool {
    sw.len() == ms.len() && forall|k: int|
        0 <= k < sw.len() ==> {
            let m = ms[ms.len() - 1 - k];
            (#[trigger] sw[k]).p1 == m.p2 && sw[k].p2 == m.p1 && sw[k].dn == m.dn
                && sw[k].dd == m.dd && sw[k].f1 == m.f2 && sw[k].f2 == m.f1
        }
}

pub proof fn lemma_clip2_sorted_swap(
    l1: int, h1: int, lo1: Vect, hi1: Vect, ilo1: FeatureId, ihi1: FeatureId, fid1: FeatureId,
    l2: int, h2: int, lo2: Vect, hi2: Vect, ilo2: FeatureId, ihi2: FeatureId, fid2: FeatureId,
    n: Vect, linear: Frac, c: int,
)
    requires
        n.ok(),
        l1 < h1, l2 < h2,
        l1 != l2, h1 != h2,
    ensures
        contacts_swapped(
            clip2_sorted_model(c - h2, c - l2, hi2, lo2, ihi2, ilo2, fid2, c - h1, c - l1,
                hi1, lo1, ihi1, ilo1, fid1, vneg(n), linear),
            clip2_sorted_model(l1, h1, lo1, hi1, ilo1, ihi1, fid1, l2, h2, lo2, hi2, ilo2,
                ihi2, fid2, n, linear),
        ),
{
    let ms = clip2_sorted_model(l1, h1, lo1, hi1, ilo1, ihi1, fid1, l2, h2, lo2, hi2, ilo2,
        ihi2, fid2, n, linear);
    let sw = clip2_sorted_model(c - h2, c - l2, hi2, lo2, ihi2, ilo2, fid2, c - h1, c - l1,
        hi1, lo1, ihi1, ilo1, fid1, vneg(n), linear);
    if l2 > h1 || l1 > h2 {
        assert(ms.len() == 0 && sw.len() == 0);
    } else {
        let ca = clip2_candidate(true, l1, h1, lo1, hi1, ilo1, ihi1, fid1, l2, h2, lo2, hi2,
            ilo2, ihi2, fid2, n);
        let cb = clip2_candidate(false, l1, h1, lo1, hi1, ilo1, ihi1, fid1, l2, h2, lo2, hi2,
            ilo2, ihi2, fid2, n);
        let wa = clip2_candidate(true, c - h2, c - l2, hi2, lo2, ihi2, ilo2, fid2, c - h1,
            c - l1, hi1, lo1, ihi1, ilo1, fid1, vneg(n));
        let wb = clip2_candidate(false, c - h2, c - l2, hi2, lo2, ihi2, ilo2, fid2, c - h1,
            c - l1, hi1, lo1, ihi1, ilo1, fid1, vneg(n));
        // The swapped run's first boundary is the original's second, and the
        // two sides of each contact exchange.
        if h2 > h1 {
            lemma_lerp_reverse(lo2, hi2, h1 - l2, h2 - l2);
            assert(wa.p1 == cb.p2 && wa.p2 == cb.p1);
        } else {
            lemma_lerp_reverse(lo1, hi1, h2 - l1, h1 - l1);
            assert(wa.p1 == cb.p2 && wa.p2 == cb.p1);
        }
        assert(wa.f1 == cb.f2 && wa.f2 == cb.f1);
        if l2 > l1 {
            lemma_lerp_reverse(lo1, hi1, l2 - l1, h1 - l1);
            assert(wb.p1 == ca.p2 && wb.p2 == ca.p1);
        } else {
            lemma_lerp_reverse(lo2, hi2, l1 - l2, h2 - l2);
            assert(wb.p1 == ca.p2 && wb.p2 == ca.p1);
        }
        assert(wb.f1 == ca.f2 && wb.f2 == ca.f1);
        lemma_depth_swap_symmetry(n, cb.p1, cb.p2);
        lemma_depth_swap_symmetry(n, ca.p1, ca.p2);
        assert(wa.dn == cb.dn && wa.dd == cb.dd);
        assert(wb.dn == ca.dn && wb.dd == ca.dd);
        assert(model_accepted(wa, linear) == model_accepted(cb, linear));
        assert(model_accepted(wb, linear) == model_accepted(ca, linear));
    }
}

/// A-B symmetry of the whole two-dimensional clip, in general position:
/// exchanging which feature is first and negating the contact normal (what
/// inverting the relative transform does to the clip's inputs) yields the
/// same contacts in reversed order, each with its two points and feature
/// ids exchanged and its depth unchanged. General position: both segments
/// project with nonzero length, and the two intervals share no endpoint.
pub proof fn lemma_clip2_swap_symmetry(
    f1: ConvexPolygonalFeature,
    f2: ConvexPolygonalFeature,
    n: Vect,
    linear: Frac,
)
    requires
        f1.wf(), f2.wf(), n.ok(),
        f1.vertices.len() >= 2, f2.vertices.len() >= 2,
        sproj2(f1.vertices[1], f1.vertices[0], n) != 0,
        sproj2(f2.vertices[1], f1.vertices[0], n) != sproj2(f2.vertices[0], f1.vertices[0], n),
        ({
            let r1b = sproj2(f1.vertices[1], f1.vertices[0], n);
            let r2a = sproj2(f2.vertices[0], f1.vertices[0], n);
            let r2b = sproj2(f2.vertices[1], f1.vertices[0], n);
            &&& (if r1b < 0 { r1b } else { 0 }) != (if r2b < r2a { r2b } else { r2a })
            &&& (if r1b < 0 { 0 } else { r1b }) != (if r2b < r2a { r2a } else { r2b })
        }),
    ensures
        contacts_swapped(
            clip2_model(f2, f1, vneg(n), linear),
            clip2_model(f1, f2, n, linear),
        ),
{
    let a1 = f1.vertices[0];
    let b1 = f1.vertices[1];
    let a2 = f2.vertices[0];
    let b2 = f2.vertices[1];
    let r1b = sproj2(b1, a1, n);
    let r2a = sproj2(a2, a1, n);
    let r2b = sproj2(b2, a1, n);
    assert((-(n.x as int)) as i64 as int == -(n.x as int));
    assert((-(n.y as int)) as i64 as int == -(n.y as int));
    // The swapped run projects onto the reflected axis from the other
    // feature's first vertex: every projection r becomes r2a - r.
    assert(sproj2(a2, a2, vneg(n)) == r2a - r2a) by (nonlinear_arith)
        requires
            vneg(n).x as int == -(n.x as int), vneg(n).y as int == -(n.y as int),
            r2a == sproj2(a2, a1, n);
    assert(sproj2(b2, a2, vneg(n)) == r2a - r2b) by (nonlinear_arith)
        requires
            vneg(n).x as int == -(n.x as int), vneg(n).y as int == -(n.y as int),
            r2a == sproj2(a2, a1, n), r2b == sproj2(b2, a1, n);
    assert(sproj2(a1, a2, vneg(n)) == r2a - 0) by (nonlinear_arith)
        requires
            vneg(n).x as int == -(n.x as int), vneg(n).y as int == -(n.y as int),
            r2a == sproj2(a2, a1, n);
    assert(sproj2(b1, a2, vneg(n)) == r2a - r1b) by (nonlinear_arith)
        requires
            vneg(n).x as int == -(n.x as int), vneg(n).y as int == -(n.y as int),
            r2a == sproj2(a2, a1, n), r1b == sproj2(b1, a1, n);
    assert(sproj2(a1, a1, n) == 0);
    let l1 = if r1b < 0 { r1b } else { 0 };
    let h1 = if r1b < 0 { 0 } else { r1b };
    let lo1 = if r1b < 0 { b1 } else { a1 };
    let hi1 = if r1b < 0 { a1 } else { b1 };
    let ilo1 = if r1b < 0 { f1.vertices_id[1] } else { f1.vertices_id[0] };
    let ihi1 = if r1b < 0 { f1.vertices_id[0] } else { f1.vertices_id[1] };
    let l2 = if r2b < r2a { r2b } else { r2a };
    let h2 = if r2b < r2a { r2a } else { r2b };
    let lo2 = if r2b < r2a { b2 } else { a2 };
    let hi2 = if r2b < r2a { a2 } else { b2 };
    let ilo2 = if r2b < r2a { f2.vertices_id[1] } else { f2.vertices_id[0] };
    let ihi2 = if r2b < r2a { f2.vertices_id[0] } else { f2.vertices_id[1] };
    assert(clip2_model(f1, f2, n, linear) == clip2_sorted_model(l1, h1, lo1, hi1, ilo1, ihi1,
        f1.feature_id, l2, h2, lo2, hi2, ilo2, ihi2, f2.feature_id, n, linear));
    // The swapped run sorts the same endpoints the other way around and
    // sees exactly the reflected intervals.
    assert(clip2_model(f2, f1, vneg(n), linear) == clip2_sorted_model(r2a - h2, r2a - l2, hi2,
        lo2, ihi2, ilo2, f2.feature_id, r2a - h1, r2a - l1, hi1, lo1, ihi1, ilo1,
        f1.feature_id, vneg(n), linear));
    lemma_clip2_sorted_swap(l1, h1, lo1, hi1, ilo1, ihi1, f1.feature_id, l2, h2, lo2, hi2,
        ilo2, ihi2, f2.feature_id, n, linear, r2a);
}

} // verus!
