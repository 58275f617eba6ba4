//! The persistent manifold generator for a pair of convex polyhedra.
//!
//! One generator serves one candidate shape pair, once per simulation step.
//! The closest-point query and the feature extraction are external
//! collaborators; the caller runs them and feeds their results in as plain
//! values, in this order per step:
//!
//! 1. If `cached_separating_axis` is set, compute the support point of the
//!    configuration-space obstacle toward it and call
//!    `try_cached_axis_rejection`; when that returns `true` the pair is still
//!    apart and the step is over, with no query and no feature extraction.
//! 2. Run the closest-point query. On a separating axis call
//!    `update_separated`; on a degenerate outcome `update_degenerate`; on a
//!    closest-point pair compute `closest_points_depth`, extract both
//!    features toward the normal (exact supporting face for positive depth,
//!    the configured angular tolerance otherwise) and call
//!    `update_with_closest_points`.
//!
//! All geometry is in the first shape's local frame; `m1` carries contacts to
//! world space, `m12_inv` carries points back into the second shape's frame.

use vstd::prelude::*;
use crate::clip::{
    clip2_model, clip3_model, clip_polygons, clip_segments, contact_model, lemma_clip2_properties,
    model_accepted, model_depth_num, pmodel_of_vect, raw_matches, raws_match, ClippingCache,
    ContactModel, ContactPrediction,
};
use crate::contact::{Contact, ContactKinematic, SideKinematic};
use crate::feature::{ConeTable, ConvexPolygonalFeature, FeatureId, NormalCone};
use crate::geometry::{
    apply_placement, dot_diff, rotate_dir, sapply_den, sapply_num, sdot, sdot_diff, FracVect,
    Placement, Vect,
};
use crate::ids::IdAllocator;
use crate::manifold::{
    cache_saved, find_match, ids_persist, lemma_find_match_props, lemma_find_match_skips,
    ContactManifold,
};
use crate::rational::{accepted_spec, Frac};

verus! {

/// Whether the pair lives in the plane or in space; selects the clipping
/// path without duplicating the surrounding orchestration.
#[derive(Clone, Copy, Debug, PartialEq, Eq, Structural)]
pub enum Dimension {
    Two,
    Three,
}

/// What the external closest-point/separation query reported.
#[derive(Clone, Copy, Debug)]
pub enum QueryOutcome {
    ClosestPoints { local1: Vect, local2: Vect, normal: Vect },
    NoIntersection { axis: Vect },
    Intermediate,
}

/// The index in `edges_id` of the first edge carrying `fid`.
pub open spec fn edge_first_index(feat: ConvexPolygonalFeature, fid: FeatureId, i: int)
    -> Option<int>
    decreases feat.edges_id.len() - i,
{
    if i < 0 || i >= feat.edges_id.len() {
        None
    } else if feat.edges_id[i] == fid {
        Some(i)
    } else {
        edge_first_index(feat, fid, i + 1)
    }
}

/// The direction of the first edge carrying `fid`: its far endpoint minus
/// its near one, unnormalized.
pub open spec fn edge_dir_spec(feat: ConvexPolygonalFeature, fid: FeatureId) -> Option<Vect> {
    match edge_first_index(feat, fid, 0) {
        Some(i) => {
            let a = feat.vertices[i];
            let b = feat.vertices[(i + 1) % (feat.vertices.len() as int)];
            Some(Vect {
                x: (b.x - a.x) as i64,
                y: (b.y - a.y) as i64,
                z: (b.z - a.z) as i64,
            })
        },
        None => None,
    }
}

/// Whether a contact tagged `fid` on this side survives kinematic assembly:
/// a face needs its half-line cone, an edge a cone and a nonzero direction,
/// a vertex a cone. `Unknown` never reaches this point.
pub open spec fn side_keeps(fid: FeatureId, feat: ConvexPolygonalFeature, cones: ConeTable)
    -> bool {
    match fid {
        FeatureId::Face(_) => cones.lookup_spec(fid) matches Some(NormalCone::HalfLine(_)),
        FeatureId::Edge(_) => {
            &&& cones.lookup_spec(fid) is Some
            &&& edge_dir_spec(feat, fid) matches Some(d) && !d.is_zero()
        },
        FeatureId::Vertex(_) => cones.lookup_spec(fid) is Some,
        FeatureId::Unknown => false,
    }
}

/// `w` is exactly the placement `m` applied to the rational point standing
/// behind `src`.
pub open spec fn placement_applies(w: FracVect, m: Placement, src: FracVect) -> bool {
    &&& w.nx as int == sapply_num(m.r0, m.t.x as int, m.div as int, src)
    &&& w.ny as int == sapply_num(m.r1, m.t.y as int, m.div as int, src)
    &&& w.nz as int == sapply_num(m.r2, m.t.z as int, m.div as int, src)
    &&& w.den as int == sapply_den(m.div as int, src)
}

pub open spec fn rotated_matches(r: Vect, m: Placement, v: Vect) -> bool {
    &&& r.x as int == sdot(m.r0, v)
    &&& r.y as int == sdot(m.r1, v)
    &&& r.z as int == sdot(m.r2, v)
}

/// The assembled descriptor of the first side: the local point is the raw
/// point itself, the correspondence follows the feature kind.
pub open spec fn side1_rel(
    s: SideKinematic,
    fid: FeatureId,
    local: FracVect,
    feat: ConvexPolygonalFeature,
    cones: ConeTable,
) -> bool {
    match fid {
        FeatureId::Face(_) => s matches SideKinematic::Plane { fid: f, local: l, half_line }
            && f == fid && l == local
            && cones.lookup_spec(fid) == Some(NormalCone::HalfLine(half_line)),
        FeatureId::Edge(_) => s matches SideKinematic::Line { fid: f, local: l, dir, cone }
            && f == fid && l == local
            && Some(cone) == cones.lookup_spec(fid)
            && Some(dir) == edge_dir_spec(feat, fid),
        FeatureId::Vertex(_) => s matches SideKinematic::Point { fid: f, local: l, cone }
            && f == fid && l == local
            && Some(cone) == cones.lookup_spec(fid),
        FeatureId::Unknown => false,
    }
}

/// The assembled descriptor of the second side: the local point is the raw
/// point carried into the second shape's frame, an edge direction is rotated
/// the same way.
pub open spec fn side2_rel(
    s: SideKinematic,
    fid: FeatureId,
    w2: FracVect,
    feat: ConvexPolygonalFeature,
    cones: ConeTable,
    m12_inv: Placement,
) -> bool {
    match fid {
        FeatureId::Face(_) => s matches SideKinematic::Plane { fid: f, local: l, half_line }
            && f == fid && placement_applies(l, m12_inv, w2)
            && cones.lookup_spec(fid) == Some(NormalCone::HalfLine(half_line)),
        FeatureId::Edge(_) => s matches SideKinematic::Line { fid: f, local: l, dir, cone }
            && f == fid && placement_applies(l, m12_inv, w2)
            && Some(cone) == cones.lookup_spec(fid)
            && (edge_dir_spec(feat, fid) matches Some(d) && rotated_matches(dir, m12_inv, d)),
        FeatureId::Vertex(_) => s matches SideKinematic::Point { fid: f, local: l, cone }
            && f == fid && placement_applies(l, m12_inv, w2)
            && Some(cone) == cones.lookup_spec(fid),
        FeatureId::Unknown => false,
    }
}

/// Which raw contacts survive kinematic assembly, in order.
pub open spec fn kept_seq(
    raws: Seq<(Contact, FeatureId, FeatureId)>,
    feat1: ConvexPolygonalFeature,
    feat2: ConvexPolygonalFeature,
    cones1: ConeTable,
    cones2: ConeTable,
    i: int,
) -> Seq<(Contact, FeatureId, FeatureId)>
    decreases i,
{
    if i <= 0 {
        Seq::empty()
    } else {
        let prefix = kept_seq(raws, feat1, feat2, cones1, cones2, i - 1);
        if side_keeps(raws[i - 1].1, feat1, cones1) && side_keeps(raws[i - 1].2, feat2, cones2) {
            prefix.push(raws[i - 1])
        } else {
            prefix
        }
    }
}

/// A stored manifold point against the raw contact it came from: the points
/// carried to world space by `m1`, the normal rotated with them, the depth
/// untouched, and one kinematic descriptor per side.
pub open spec fn saved_matches(
    tc: crate::manifold::TrackedContact,
    raw: (Contact, FeatureId, FeatureId),
    feat1: ConvexPolygonalFeature,
    feat2: ConvexPolygonalFeature,
    cones1: ConeTable,
    cones2: ConeTable,
    m1: Placement,
    m12_inv: Placement,
) -> bool {
    &&& tc.fid1 == raw.1
    &&& tc.fid2 == raw.2
    &&& placement_applies(tc.contact.world1, m1, raw.0.world1)
    &&& placement_applies(tc.contact.world2, m1, raw.0.world2)
    &&& rotated_matches(tc.contact.normal, m1, raw.0.normal)
    &&& tc.contact.depth == raw.0.depth
    &&& side1_rel(tc.kinematic.side1, raw.1, raw.0.world1, feat1, cones1)
    &&& side2_rel(tc.kinematic.side2, raw.2, raw.0.world2, feat2, cones2, m12_inv)
}

/// One raw contact holds bounded values, as the clipper guarantees; what
/// the kinematic assembly relies on.
pub open spec fn raw_ok(e: (Contact, FeatureId, FeatureId)) -> bool {
    &&& e.0.wf()
    &&& e.0.world1.bounded(100000000000000000000000000000, 10000000000000000000000000)
    &&& e.0.world2.bounded(100000000000000000000000000000, 10000000000000000000000000)
    &&& e.0.normal.ok()
}

pub open spec fn raws_ok(raws: Seq<(Contact, FeatureId, FeatureId)>) -> bool {
    forall|k: int| 0 <= k < raws.len() ==> raw_ok(#[trigger] raws[k])
}

/// Builds the first side's kinematic descriptor, or nothing when the feature
/// is degenerate for it (no cone recorded, or a zero-length edge).
fn build_side1(fid: FeatureId, local: FracVect, feat: &ConvexPolygonalFeature, cones: &ConeTable)
    -> (r: Option<SideKinematic>)
    requires
        feat.wf(),
    ensures
        r is Some <==> side_keeps(fid, *feat, *cones),
        match r {
            Some(s) => side1_rel(s, fid, local, *feat, *cones),
            None => true,
        },
{
    match fid {
        FeatureId::Face(_) => {
            match cones.lookup(fid) {
                Some(NormalCone::HalfLine(h)) => Some(SideKinematic::Plane {
                    fid,
                    local,
                    half_line: *h,
                }),
                _ => None,
            }
        },
        FeatureId::Edge(_) => {
            match cones.lookup(fid) {
                Some(cone) => {
                    match edge_direction(feat, fid) {
                        Some(dir) => Some(SideKinematic::Line { fid, local, dir, cone: *cone }),
                        None => None,
                    }
                },
                None => None,
            }
        },
        FeatureId::Vertex(_) => {
            match cones.lookup(fid) {
                Some(cone) => Some(SideKinematic::Point { fid, local, cone: *cone }),
                None => None,
            }
        },
        FeatureId::Unknown => None,
    }
}

/// Builds the second side's descriptor; its edge direction is carried into
/// the second shape's frame by the inverse relative placement.
fn build_side2(
    fid: FeatureId,
    local: FracVect,
    w2: FracVect,
    feat: &ConvexPolygonalFeature,
    cones: &ConeTable,
    m12_inv: &Placement,
) -> (r: Option<SideKinematic>)
    requires
        feat.wf(),
        m12_inv.ok(),
        placement_applies(local, *m12_inv, w2),
    ensures
        r is Some <==> side_keeps(fid, *feat, *cones),
        match r {
            Some(s) => side2_rel(s, fid, w2, *feat, *cones, *m12_inv),
            None => true,
        },
{
    match fid {
        FeatureId::Face(_) => {
            match cones.lookup(fid) {
                Some(NormalCone::HalfLine(h)) => Some(SideKinematic::Plane {
                    fid,
                    local,
                    half_line: *h,
                }),
                _ => None,
            }
        },
        FeatureId::Edge(_) => {
            match cones.lookup(fid) {
                Some(cone) => {
                    match edge_direction(feat, fid) {
                        Some(dir) => {
                            let local_dir = rotate_dir(m12_inv, &dir, Ghost(8192));
                            Some(SideKinematic::Line { fid, local, dir: local_dir,
                                cone: *cone })
                        },
                        None => None,
                    }
                },
                None => None,
            }
        },
        FeatureId::Vertex(_) => {
            match cones.lookup(fid) {
                Some(cone) => Some(SideKinematic::Point { fid, local, cone: *cone }),
                None => None,
            }
        },
        FeatureId::Unknown => None,
    }
}

/// The unnormalized direction of the first edge carrying `fid`, or nothing
/// when there is no such edge or its endpoints coincide.
fn edge_direction(feat: &ConvexPolygonalFeature, fid: FeatureId) -> (r: Option<Vect>)
    requires
        feat.wf(),
    ensures
        match r {
            Some(d) => edge_dir_spec(*feat, fid) == Some(d) && !d.is_zero()
                && -8192 <= d.x as int && d.x as int <= 8192
                && -8192 <= d.y as int && d.y as int <= 8192
                && -8192 <= d.z as int && d.z as int <= 8192,
            None => !(edge_dir_spec(*feat, fid) matches Some(d) && !d.is_zero()),
        },
{
    let n = feat.vertices.len();
    let mut i: usize = 0;
    while i < feat.edges_id.len()
        invariant
            feat.wf(),
            n == feat.vertices@.len(),
            0 <= i <= feat.edges_id@.len(),
            edge_first_index(*feat, fid, 0) == edge_first_index(*feat, fid, i as int),
        decreases feat.edges_id@.len() - i,
    {
        if feat.edges_id[i] == fid {
            let a = feat.vertices[i];
            let j = (i + 1) % n;
            let b = feat.vertices[j];
            proof {
                assert(edge_first_index(*feat, fid, i as int) == Some(i as int));
                assert(j as int == (i as int + 1) % (n as int));
                assert(feat.vertices[i as int].ok());
                assert(feat.vertices[j as int].ok());
            }
            let d = Vect { x: b.x - a.x, y: b.y - a.y, z: b.z - a.z };
            if d.x == 0 && d.y == 0 && d.z == 0 {
                return None;
            }
            return Some(d);
        }
        i += 1;
    }
    None
}

/// Persistent contact manifold computation between two convex polyhedra,
/// fed by an external closest-point query and feature extractor.
#[derive(Clone, Debug)]
pub struct ConvexPolyhedronConvexPolyhedronManifoldGenerator {
    pub dim: Dimension,
    pub contact_manifold: ContactManifold,
    pub clip_cache: ClippingCache,
    pub new_contacts: Vec<(Contact, FeatureId, FeatureId)>,
    pub manifold1: ConvexPolygonalFeature,
    pub manifold2: ConvexPolygonalFeature,
    pub sep_axis: Option<Vect>,
}

/// The cheap rejection test of the separating-axis cache: the estimated
/// separation `-(support . axis)` still exceeds the margin.
pub open spec fn sep_rejects(d: int, linear: Frac) -> bool {
    -d * linear.den as int > linear.num as int
}

impl ConvexPolyhedronConvexPolyhedronManifoldGenerator {
    pub open spec fn wf(self, ids: IdAllocator) -> bool {
        &&& self.contact_manifold.wf(ids)
        &&& self.sep_axis matches Some(a) ==> a.ok()
    }

    /// Creates a new persistent collision detector between two convex
    /// polyhedra of the given dimension.
    pub fn new(dim: Dimension) -> (r: ConvexPolyhedronConvexPolyhedronManifoldGenerator)
        ensures
            r.dim == dim,
            r.contact_manifold.contacts@.len() == 0,
            r.contact_manifold.cache@.len() == 0,
            r.new_contacts@.len() == 0,
            r.sep_axis is None,
            r.manifold1.vertices@.len() == 0,
            r.manifold1.vertices_id@.len() == 0,
            r.manifold1.edges_id@.len() == 0,
            r.manifold1.normal is None,
            r.manifold2.vertices@.len() == 0,
            r.manifold2.vertices_id@.len() == 0,
            r.manifold2.edges_id@.len() == 0,
            r.manifold2.normal is None,
            r.clip_cache.poly1@.len() == 0,
            r.clip_cache.poly2@.len() == 0,
            forall|a: IdAllocator| r.wf(a),
    {
        ConvexPolyhedronConvexPolyhedronManifoldGenerator {
            dim,
            contact_manifold: ContactManifold::new(),
            clip_cache: ClippingCache::new(),
            new_contacts: Vec::new(),
            manifold1: ConvexPolygonalFeature::new(),
            manifold2: ConvexPolygonalFeature::new(),
            sep_axis: None,
        }
    }

    pub fn num_contacts(&self) -> (r: usize)
        ensures
            r == self.contact_manifold.contacts@.len(),
    {
        self.contact_manifold.len()
    }

    /// Appends the manifold to `out` when it holds any contact.
    pub fn contacts<'a>(&'a self, out: &mut Vec<&'a ContactManifold>)
        ensures
            self.contact_manifold.contacts@.len() != 0 ==> final(out)@.len() == old(out)@.len() + 1
                && final(out)@.last() == &self.contact_manifold
                && final(out)@.subrange(0, old(out)@.len() as int) == old(out)@,
            self.contact_manifold.contacts@.len() == 0 ==> final(out)@ == old(out)@,
    {
        if self.contact_manifold.len() != 0 {
            out.push(&self.contact_manifold);
            proof {
                assert(final(out)@.subrange(0, old(out)@.len() as int) =~= old(out)@);
            }
        }
    }

    /// The separating axis cached by a previous update, if still valid.
    pub fn cached_separating_axis(&self) -> (r: Option<Vect>)
        ensures
            r == self.sep_axis,
    {
        self.sep_axis
    }

    /// The separating-axis shortcut. `support` is the support point of the
    /// configuration-space obstacle toward the cached axis, computed by the
    /// caller. When the estimated separation still exceeds the margin the
    /// manifold is cleared (its id cache kept), the axis stays cached, and
    /// the update is over: no query, no feature extraction. Otherwise the
    /// axis is invalidated and nothing else changes.
    pub fn try_cached_axis_rejection(
        &mut self,
        support: &Vect,
        prediction: &ContactPrediction,
        ids: &mut IdAllocator,
    ) -> (r: bool)
        requires
            old(self).sep_axis is Some,
            support.ok(),
            prediction.wf(),
            old(ids).wf(),
            old(self).wf(*old(ids)),
        ensures
            final(ids).wf(),
            final(self).wf(*final(ids)),
            r == sep_rejects(sdot(*support, old(self).sep_axis.unwrap()), prediction.linear),
            r ==> final(self).sep_axis == old(self).sep_axis
                && final(self).contact_manifold.contacts@.len() == 0
                && cache_saved(old(self).contact_manifold, final(self).contact_manifold,
                    *old(ids), *final(ids))
                && final(self).contact_manifold.subshape_id1
                    == old(self).contact_manifold.subshape_id1
                && final(self).contact_manifold.subshape_id2
                    == old(self).contact_manifold.subshape_id2,
            !r ==> final(self).sep_axis is None && *final(ids) == *old(ids)
                && final(self).contact_manifold == old(self).contact_manifold,
            final(self).dim == old(self).dim,
            final(self).manifold1 == old(self).manifold1,
            final(self).manifold2 == old(self).manifold2,
    {
        let axis = self.sep_axis.unwrap();
        let zero = Vect { x: 0, y: 0, z: 0 };
        let d = dot_diff(support, &zero, &axis, Ghost(4096));
        proof {
            assert(sdot_diff(*support, zero, axis) == sdot(*support, axis));
        }
        // -(support . axis) > linear, by cross multiplication (den > 0).
        let lhs = crate::rational::mul_ck(-d, prediction.linear.den, Ghost(100663296),
            Ghost(4096));
        if lhs > prediction.linear.num {
            self.contact_manifold.save_cache_and_clear(ids);
            true
        } else {
            self.sep_axis = None;
            false
        }
    }

    /// Dispatches one query outcome. A separating axis or a degenerate
    /// outcome finishes the step with an empty manifold; a closest-point
    /// pair is handed back so the caller can extract the supporting
    /// features toward its normal and finish with
    /// `update_with_closest_points`.
    pub fn begin_update(
        &mut self,
        ida: usize,
        idb: usize,
        outcome: &QueryOutcome,
        ids: &mut IdAllocator,
    ) -> (r: Option<(Vect, Vect, Vect)>)
        requires
            old(ids).wf(),
            old(self).wf(*old(ids)),
            outcome matches QueryOutcome::NoIntersection { axis } ==> axis.ok(),
        ensures
            final(ids).wf(),
            final(self).wf(*final(ids)),
            final(self).dim == old(self).dim,
            match *outcome {
                QueryOutcome::ClosestPoints { local1, local2, normal } => {
                    &&& r == Some((local1, local2, normal))
                    &&& *final(self) == *old(self)
                    &&& *final(ids) == *old(ids)
                },
                QueryOutcome::NoIntersection { axis } => {
                    &&& r is None
                    &&& final(self).sep_axis == Some(axis)
                    &&& final(self).contact_manifold.contacts@.len() == 0
                    &&& final(self).contact_manifold.subshape_id1 == ida
                    &&& final(self).contact_manifold.subshape_id2 == idb
                    &&& cache_saved(old(self).contact_manifold, final(self).contact_manifold,
                        *old(ids), *final(ids))
                },
                QueryOutcome::Intermediate => {
                    &&& r is None
                    &&& final(self).sep_axis == old(self).sep_axis
                    &&& final(self).contact_manifold.contacts@.len() == 0
                    &&& final(self).contact_manifold.subshape_id1 == ida
                    &&& final(self).contact_manifold.subshape_id2 == idb
                    &&& cache_saved(old(self).contact_manifold, final(self).contact_manifold,
                        *old(ids), *final(ids))
                },
            },
    {
        match outcome {
            QueryOutcome::ClosestPoints { local1, local2, normal } => {
                Some((*local1, *local2, *normal))
            },
            QueryOutcome::NoIntersection { axis } => {
                self.update_separated(ida, idb, *axis, ids);
                None
            },
            QueryOutcome::Intermediate => {
                self.update_degenerate(ida, idb, ids);
                None
            },
        }
    }

    /// The update step for a query that found a separating axis: cache it,
    /// clear the manifold (keeping its id cache), record the subshapes.
    pub fn update_separated(&mut self, ida: usize, idb: usize, axis: Vect, ids: &mut IdAllocator)
        requires
            axis.ok(),
            old(ids).wf(),
            old(self).wf(*old(ids)),
        ensures
            final(ids).wf(),
            final(self).wf(*final(ids)),
            final(self).sep_axis == Some(axis),
            final(self).contact_manifold.contacts@.len() == 0,
            final(self).contact_manifold.subshape_id1 == ida,
            final(self).contact_manifold.subshape_id2 == idb,
            cache_saved(old(self).contact_manifold, final(self).contact_manifold, *old(ids),
                *final(ids)),
            final(self).dim == old(self).dim,
    {
        self.contact_manifold.set_subshape_id1(ida);
        self.contact_manifold.set_subshape_id2(idb);
        self.sep_axis = Some(axis);
        self.contact_manifold.save_cache_and_clear(ids);
    }

    /// The update step for a degenerate query outcome: no contacts this
    /// step; the manifold is cleared with its id cache kept.
    pub fn update_degenerate(&mut self, ida: usize, idb: usize, ids: &mut IdAllocator)
        requires
            old(ids).wf(),
            old(self).wf(*old(ids)),
        ensures
            final(ids).wf(),
            final(self).wf(*final(ids)),
            final(self).sep_axis == old(self).sep_axis,
            final(self).contact_manifold.contacts@.len() == 0,
            final(self).contact_manifold.subshape_id1 == ida,
            final(self).contact_manifold.subshape_id2 == idb,
            cache_saved(old(self).contact_manifold, final(self).contact_manifold, *old(ids),
                *final(ids)),
            final(self).dim == old(self).dim,
    {
        self.contact_manifold.set_subshape_id1(ida);
        self.contact_manifold.set_subshape_id2(idb);
        self.contact_manifold.save_cache_and_clear(ids);
    }
}

/// What the closest-point query grants of its result: it reports a pair
/// only when the shapes are separated by at most the margin (or penetrate),
/// so the pair's own depth satisfies the retention invariant
/// `-depth <= linear`. Callers of `update_with_closest_points` owe this of
/// the pair they pass in.
pub open spec fn query_within_margin(local1: Vect, local2: Vect, n: Vect, linear: Frac) -> bool {
    sdot_diff(local2, local1, n) * linear.den as int <= linear.num as int
}

/// The signed depth of the query's closest-point pair: positive means the
/// shapes interpenetrate, and the face path (zero angular tolerance) is
/// taken; otherwise the feature path with the configured tolerances.
pub fn closest_points_depth(local1: &Vect, local2: &Vect, normal: &Vect) -> (r: Frac)
    requires
        local1.ok(), local2.ok(), normal.ok(),
    ensures
        r.wf(),
        r.num as int == -sdot_diff(*local2, *local1, *normal),
        r.den == 1,
{
    let d = dot_diff(local2, local1, normal, Ghost(4096));
    Frac { num: -d, den: 1 }
}

/// A contact straight from the query's closest-point pair, kept when
/// clipping found nothing.
fn single_point_contact(local1: &Vect, local2: &Vect, normal: &Vect) -> (c: Contact)
    requires
        local1.ok(), local2.ok(), normal.ok(),
    ensures
        c.wf(),
        crate::clip::pmodel_matches(c.world1, pmodel_of_vect(*local1)),
        crate::clip::pmodel_matches(c.world2, pmodel_of_vect(*local2)),
        c.normal == *normal,
        c.depth.num as int == crate::clip::model_depth_num(*normal, pmodel_of_vect(*local1),
            pmodel_of_vect(*local2)),
        c.depth.den == 1,
        c.world1.bounded(100000000000000000000000000000, 10000000000000000000000000),
        c.world2.bounded(100000000000000000000000000000, 10000000000000000000000000),
{
    let w1 = FracVect::from_vect(local1);
    let w2 = FracVect::from_vect(local2);
    let depth = crate::geometry::contact_depth(normal, &w1, &w2, Ghost(4096), Ghost(1),
        Ghost(4096), Ghost(1));
    Contact { world1: w1, world2: w2, normal: *normal, depth }
}

/// What the clipper guarantees of every raw contact, in the form the
/// kinematic assembly relies on.
pub proof fn lemma_raws_ok_from_match(
    raws: Seq<(Contact, FeatureId, FeatureId)>,
    n: Vect,
    ms: Seq<ContactModel>,
)
    requires
        raws_match(raws, n, ms),
        n.ok(),
    ensures
        raws_ok(raws),
{
    assert forall|k: int| 0 <= k < raws.len() implies raw_ok(#[trigger] raws[k]) by {
        assert(raw_matches(raws[k], n, ms[k]));
    }
}

/// The raw contacts of one closest-point update: the clipped contacts, or,
/// when clipping produced none, the query's own point pair as the sole
/// contact (not subjected to the margin test).
pub open spec fn update_raw_model(
    dim: Dimension,
    f1: ConvexPolygonalFeature,
    f2: ConvexPolygonalFeature,
    local1: Vect,
    local2: Vect,
    n: Vect,
    linear: Frac,
) -> Seq<ContactModel> {
    let clipped = match dim {
        Dimension::Two => clip2_model(f1, f2, n, linear),
        Dimension::Three => clip3_model(f1, f2, n, linear),
    };
    if clipped.len() == 0 {
        Seq::empty().push(contact_model(n, pmodel_of_vect(local1), pmodel_of_vect(local2),
            f1.feature_id, f2.feature_id))
    } else {
        clipped
    }
}

pub proof fn lemma_kept_len(
    raws: Seq<(Contact, FeatureId, FeatureId)>,
    feat1: ConvexPolygonalFeature,
    feat2: ConvexPolygonalFeature,
    cones1: ConeTable,
    cones2: ConeTable,
    i: int,
)
    requires
        0 <= i,
    ensures
        kept_seq(raws, feat1, feat2, cones1, cones2, i).len() <= i,
    decreases i,
{
    if i > 0 {
        lemma_kept_len(raws, feat1, feat2, cones1, cones2, i - 1);
    }
}

pub proof fn lemma_verts_pass_accepted(
    fa_verts: Seq<Vect>,
    fa_ids: Seq<FeatureId>,
    polya: Seq<crate::clip::ProjModel>,
    fb: ConvexPolygonalFeature,
    polyb: Seq<crate::clip::ProjModel>,
    refp: Vect,
    b1: (int, int, int),
    b2: (int, int, int),
    n: Vect,
    linear: Frac,
    first_side: bool,
    i: int,
)
    ensures
        forall|k: int|
            0 <= k < crate::clip::verts_pass_model(fa_verts, fa_ids, polya, fb, polyb, refp, b1,
                b2, n, linear, first_side, i).len()
                ==> model_accepted(#[trigger] crate::clip::verts_pass_model(fa_verts, fa_ids,
                    polya, fb, polyb, refp, b1, b2, n, linear, first_side, i)[k], linear),
    decreases i,
{
    if i > 0 {
        lemma_verts_pass_accepted(fa_verts, fa_ids, polya, fb, polyb, refp, b1, b2, n, linear,
            first_side, i - 1);
        assert forall|k: int|
            0 <= k < crate::clip::verts_pass_model(fa_verts, fa_ids, polya, fb, polyb, refp,
                b1, b2, n, linear, first_side, i).len()
                implies model_accepted(#[trigger] crate::clip::verts_pass_model(fa_verts,
                    fa_ids, polya, fb, polyb, refp, b1, b2, n, linear, first_side, i)[k],
                    linear) by {
            let prev = crate::clip::verts_pass_model(fa_verts, fa_ids, polya, fb, polyb, refp,
                b1, b2, n, linear, first_side, i - 1);
            let step = crate::clip::vert_step_model(fa_verts[i - 1], fa_ids[i - 1],
                polya[i - 1], fb, polyb, refp, b1, b2, n, linear, first_side);
            let cur = crate::clip::verts_pass_model(fa_verts, fa_ids, polya, fb, polyb, refp,
                b1, b2, n, linear, first_side, i);
            assert(cur == prev + step);
            if k < prev.len() {
                assert(cur[k] == prev[k]);
            } else {
                assert(cur[k] == step[k - prev.len()]);
            }
        }
    }
}

pub proof fn lemma_edge_row_accepted(
    f1: ConvexPolygonalFeature,
    f2: ConvexPolygonalFeature,
    poly1: Seq<crate::clip::ProjModel>,
    poly2: Seq<crate::clip::ProjModel>,
    n: Vect,
    linear: Frac,
    i1: int,
    i2: int,
)
    ensures
        forall|k: int|
            0 <= k < crate::clip::edge_row_model(f1, f2, poly1, poly2, n, linear, i1, i2).len()
                ==> model_accepted(#[trigger] crate::clip::edge_row_model(f1, f2, poly1, poly2,
                    n, linear, i1, i2)[k], linear),
    decreases i2,
{
    if i2 > 0 {
        lemma_edge_row_accepted(f1, f2, poly1, poly2, n, linear, i1, i2 - 1);
        assert forall|k: int|
            0 <= k < crate::clip::edge_row_model(f1, f2, poly1, poly2, n, linear, i1, i2).len()
                implies model_accepted(#[trigger] crate::clip::edge_row_model(f1, f2, poly1,
                    poly2, n, linear, i1, i2)[k], linear) by {
            let prev = crate::clip::edge_row_model(f1, f2, poly1, poly2, n, linear, i1, i2 - 1);
            let step = crate::clip::edge_step_model(f1, f2, poly1, poly2, n, linear, i1,
                i2 - 1);
            let cur = crate::clip::edge_row_model(f1, f2, poly1, poly2, n, linear, i1, i2);
            assert(cur == prev + step);
            if k < prev.len() {
                assert(cur[k] == prev[k]);
            } else {
                assert(cur[k] == step[k - prev.len()]);
            }
        }
    }
}

pub proof fn lemma_edges_pass_accepted(
    f1: ConvexPolygonalFeature,
    f2: ConvexPolygonalFeature,
    poly1: Seq<crate::clip::ProjModel>,
    poly2: Seq<crate::clip::ProjModel>,
    n: Vect,
    linear: Frac,
    i1: int,
)
    ensures
        forall|k: int|
            0 <= k < crate::clip::edges_pass_model(f1, f2, poly1, poly2, n, linear, i1).len()
                ==> model_accepted(#[trigger] crate::clip::edges_pass_model(f1, f2, poly1,
                    poly2, n, linear, i1)[k], linear),
    decreases i1,
{
    if i1 > 0 {
        lemma_edges_pass_accepted(f1, f2, poly1, poly2, n, linear, i1 - 1);
        lemma_edge_row_accepted(f1, f2, poly1, poly2, n, linear, i1 - 1,
            f2.edges_id@.len() as int);
        assert forall|k: int|
            0 <= k < crate::clip::edges_pass_model(f1, f2, poly1, poly2, n, linear, i1).len()
                implies model_accepted(#[trigger] crate::clip::edges_pass_model(f1, f2, poly1,
                    poly2, n, linear, i1)[k], linear) by {
            let prev = crate::clip::edges_pass_model(f1, f2, poly1, poly2, n, linear, i1 - 1);
            let row = crate::clip::edge_row_model(f1, f2, poly1, poly2, n, linear, i1 - 1,
                f2.edges_id@.len() as int);
            let cur = crate::clip::edges_pass_model(f1, f2, poly1, poly2, n, linear, i1);
            assert(cur == prev + row);
            if k < prev.len() {
                assert(cur[k] == prev[k]);
            } else {
                assert(cur[k] == row[k - prev.len()]);
            }
        }
    }
}

/// Every contact the three-dimensional clip produces passed the margin test.
pub proof fn lemma_clip3_accepted(
    f1: ConvexPolygonalFeature,
    f2: ConvexPolygonalFeature,
    n: Vect,
    linear: Frac,
)
    ensures
        forall|k: int| 0 <= k < clip3_model(f1, f2, n, linear).len()
            ==> model_accepted(#[trigger] clip3_model(f1, f2, n, linear)[k], linear),
{
    let l1 = f1.vertices.len() as int;
    let l2 = f2.vertices.len() as int;
    if !((l1 <= 2 && l2 <= 2) || l1 == 1 || l2 == 1) {
        let b1 = crate::clip::sbasis1(n);
        let b2 = crate::clip::sbasis2(n);
        let refp = f1.vertices[0];
        let poly1 = crate::clip::proj_seq(f1.vertices@, refp, b1, b2);
        let poly2 = crate::clip::proj_seq(f2.vertices@, refp, b1, b2);
        lemma_verts_pass_accepted(f1.vertices@, f1.vertices_id@, poly1, f2, poly2, refp, b1, b2,
            n, linear, true, l1);
        lemma_verts_pass_accepted(f2.vertices@, f2.vertices_id@, poly2, f1, poly1, refp, b1, b2,
            n, linear, false, l2);
        lemma_edges_pass_accepted(f1, f2, poly1, poly2, n, linear, f1.edges_id@.len() as int);
    }
}

/// Every raw contact of an update passed the margin test: the clipped ones
/// by the clipper's own filter, the fallback pair by the query's grant.
pub proof fn lemma_raw_model_accepted(
    dim: Dimension,
    f1: ConvexPolygonalFeature,
    f2: ConvexPolygonalFeature,
    local1: Vect,
    local2: Vect,
    n: Vect,
    linear: Frac,
)
    requires
        f1.wf(), f2.wf(),
        linear.wf(),
        query_within_margin(local1, local2, n, linear),
    ensures
        forall|k: int| 0 <= k < update_raw_model(dim, f1, f2, local1, local2, n, linear).len()
            ==> model_accepted(#[trigger] update_raw_model(dim, f1, f2, local1, local2, n,
                linear)[k], linear),
{
    match dim {
        Dimension::Two => {
            lemma_clip2_properties(f1, f2, n, linear);
        },
        Dimension::Three => {
            lemma_clip3_accepted(f1, f2, n, linear);
        },
    }
    let clipped = match dim {
        Dimension::Two => clip2_model(f1, f2, n, linear),
        Dimension::Three => clip3_model(f1, f2, n, linear),
    };
    if clipped.len() == 0 {
        let cm = contact_model(n, pmodel_of_vect(local1), pmodel_of_vect(local2),
            f1.feature_id, f2.feature_id);
        assert(cm.dd == 1);
        assert(model_depth_num(n, pmodel_of_vect(local1), pmodel_of_vect(local2))
            == -sdot_diff(local2, local1, n)) by (nonlinear_arith);
        assert(-(model_depth_num(n, pmodel_of_vect(local1), pmodel_of_vect(local2))
            * linear.den as int)
            == sdot_diff(local2, local1, n) * linear.den as int) by (nonlinear_arith);
        assert(model_accepted(cm, linear));
        assert(update_raw_model(dim, f1, f2, local1, local2, n, linear)
            == Seq::empty().push(cm));
    }
}

/// Every contact that survives kinematic assembly is one of the raw ones.
pub proof fn lemma_kept_subset(
    raws: Seq<(Contact, FeatureId, FeatureId)>,
    feat1: ConvexPolygonalFeature,
    feat2: ConvexPolygonalFeature,
    cones1: ConeTable,
    cones2: ConeTable,
    i: int,
)
    requires
        0 <= i <= raws.len(),
    ensures
        forall|k: int|
            0 <= k < kept_seq(raws, feat1, feat2, cones1, cones2, i).len()
                ==> exists|j: int|
                    0 <= j < i && #[trigger] kept_seq(raws, feat1, feat2, cones1, cones2,
                        i)[k] == raws[j],
    decreases i,
{
    if i > 0 {
        lemma_kept_subset(raws, feat1, feat2, cones1, cones2, i - 1);
        assert forall|k: int|
            0 <= k < kept_seq(raws, feat1, feat2, cones1, cones2, i).len()
                implies exists|j: int|
                    0 <= j < i && #[trigger] kept_seq(raws, feat1, feat2, cones1, cones2,
                        i)[k] == raws[j] by {
            let prev = kept_seq(raws, feat1, feat2, cones1, cones2, i - 1);
            let cur = kept_seq(raws, feat1, feat2, cones1, cones2, i);
            if k < prev.len() {
                assert(cur[k] == prev[k]);
                let j = choose|j: int| 0 <= j < i - 1 && prev[k] == raws[j];
                assert(0 <= j < i && cur[k] == raws[j]);
            } else {
                assert(cur[k] == raws[i - 1]);
                assert(0 <= i - 1 < i && cur[k] == raws[i - 1]);
            }
        }
    }
}

pub proof fn lemma_clip2_len(
    f1: ConvexPolygonalFeature,
    f2: ConvexPolygonalFeature,
    n: Vect,
    linear: Frac,
)
    ensures
        clip2_model(f1, f2, n, linear).len() <= 2,
{
}

pub proof fn lemma_verts_pass_len(
    fa_verts: Seq<Vect>,
    fa_ids: Seq<FeatureId>,
    polya: Seq<crate::clip::ProjModel>,
    fb: ConvexPolygonalFeature,
    polyb: Seq<crate::clip::ProjModel>,
    refp: Vect,
    b1: (int, int, int),
    b2: (int, int, int),
    n: Vect,
    linear: Frac,
    first_side: bool,
    i: int,
)
    requires
        0 <= i,
    ensures
        crate::clip::verts_pass_model(fa_verts, fa_ids, polya, fb, polyb, refp, b1, b2, n,
            linear, first_side, i).len() <= i,
    decreases i,
{
    if i > 0 {
        lemma_verts_pass_len(fa_verts, fa_ids, polya, fb, polyb, refp, b1, b2, n, linear,
            first_side, i - 1);
    }
}

pub proof fn lemma_edge_row_len(
    f1: ConvexPolygonalFeature,
    f2: ConvexPolygonalFeature,
    poly1: Seq<crate::clip::ProjModel>,
    poly2: Seq<crate::clip::ProjModel>,
    n: Vect,
    linear: Frac,
    i1: int,
    i2: int,
)
    requires
        0 <= i2,
    ensures
        crate::clip::edge_row_model(f1, f2, poly1, poly2, n, linear, i1, i2).len() <= i2,
    decreases i2,
{
    if i2 > 0 {
        lemma_edge_row_len(f1, f2, poly1, poly2, n, linear, i1, i2 - 1);
    }
}

pub proof fn lemma_edges_pass_len(
    f1: ConvexPolygonalFeature,
    f2: ConvexPolygonalFeature,
    poly1: Seq<crate::clip::ProjModel>,
    poly2: Seq<crate::clip::ProjModel>,
    n: Vect,
    linear: Frac,
    i1: int,
)
    requires
        0 <= i1,
    ensures
        crate::clip::edges_pass_model(f1, f2, poly1, poly2, n, linear, i1).len()
            <= i1 * f2.edges_id@.len(),
    decreases i1,
{
    if i1 > 0 {
        lemma_edges_pass_len(f1, f2, poly1, poly2, n, linear, i1 - 1);
        lemma_edge_row_len(f1, f2, poly1, poly2, n, linear, i1 - 1, f2.edges_id@.len() as int);
        assert((i1 - 1) * f2.edges_id@.len() + f2.edges_id@.len() == i1 * f2.edges_id@.len())
            by (nonlinear_arith);
    } else {
        assert(i1 * f2.edges_id@.len() == 0) by (nonlinear_arith)
            requires i1 == 0;
    }
}

pub proof fn lemma_clip3_len(
    f1: ConvexPolygonalFeature,
    f2: ConvexPolygonalFeature,
    n: Vect,
    linear: Frac,
)
    ensures
        clip3_model(f1, f2, n, linear).len() <= f1.vertices@.len() + f2.vertices@.len()
            + f1.edges_id@.len() * f2.edges_id@.len(),
{
    let l1 = f1.vertices.len() as int;
    let l2 = f2.vertices.len() as int;
    if !((l1 <= 2 && l2 <= 2) || l1 == 1 || l2 == 1) {
        let b1 = crate::clip::sbasis1(n);
        let b2 = crate::clip::sbasis2(n);
        let refp = f1.vertices[0];
        let poly1 = crate::clip::proj_seq(f1.vertices@, refp, b1, b2);
        let poly2 = crate::clip::proj_seq(f2.vertices@, refp, b1, b2);
        lemma_verts_pass_len(f1.vertices@, f1.vertices_id@, poly1, f2, poly2, refp, b1, b2, n,
            linear, true, l1);
        lemma_verts_pass_len(f2.vertices@, f2.vertices_id@, poly2, f1, poly1, refp, b1, b2, n,
            linear, false, l2);
        lemma_edges_pass_len(f1, f2, poly1, poly2, n, linear, f1.edges_id@.len() as int);
    } else {
        assert(0 <= f1.edges_id@.len() * f2.edges_id@.len()) by (nonlinear_arith);
    }
}


/// One push against the saved cache keeps the warm-start bookkeeping: the
/// cache still carries the previous contacts' pairs and ids, a taken entry
/// is one whose pair was stored again, and `ids_persist` extends to the
/// newly stored contact.
proof fn lemma_after_push(
    pre: Seq<crate::manifold::TrackedContact>,
    cacheb: Seq<crate::manifold::CacheEntry>,
    contsb: Seq<crate::manifold::TrackedContact>,
    cachea: Seq<crate::manifold::CacheEntry>,
    contsa: Seq<crate::manifold::TrackedContact>,
    f1: FeatureId,
    f2: FeatureId,
    newid: usize,
)
    requires
        cacheb.len() == pre.len(),
        forall|i: int| 0 <= i < pre.len()
            ==> (#[trigger] cacheb[i]).fid1 == pre[i].fid1 && cacheb[i].fid2 == pre[i].fid2
                && cacheb[i].id == pre[i].id,
        forall|i: int| 0 <= i < pre.len() && (#[trigger] cacheb[i]).taken
            ==> exists|e: int|
                0 <= e < contsb.len() && (#[trigger] contsb[e]).fid1 == cacheb[i].fid1
                    && contsb[e].fid2 == cacheb[i].fid2,
        ids_persist(pre, contsb),
        contsa.len() == contsb.len() + 1,
        forall|i: int| 0 <= i < contsb.len() ==> #[trigger] contsa[i] == contsb[i],
        contsa.last().fid1 == f1,
        contsa.last().fid2 == f2,
        contsa.last().id == newid,
        match find_match(cacheb, f1, f2) {
            Some(j) => {
                &&& cachea.len() == cacheb.len()
                &&& forall|i: int| 0 <= i < cacheb.len() && i != j
                    ==> #[trigger] cachea[i] == cacheb[i]
                &&& cachea[j] == (crate::manifold::CacheEntry { taken: true, ..cacheb[j] })
                &&& newid == cacheb[j].id
            },
            None => cachea == cacheb,
        },
    ensures
        cachea.len() == pre.len(),
        forall|i: int| 0 <= i < pre.len()
            ==> (#[trigger] cachea[i]).fid1 == pre[i].fid1 && cachea[i].fid2 == pre[i].fid2
                && cachea[i].id == pre[i].id,
        forall|i: int| 0 <= i < pre.len() && (#[trigger] cachea[i]).taken
            ==> exists|e: int|
                0 <= e < contsa.len() && (#[trigger] contsa[e]).fid1 == cachea[i].fid1
                    && contsa[e].fid2 == cachea[i].fid2,
        ids_persist(pre, contsa),
{
    let kk_new = contsb.len() as int;
    if find_match(cacheb, f1, f2) is Some {
        let jc = find_match(cacheb, f1, f2).unwrap();
        lemma_find_match_props(cacheb, f1, f2, 0);
        assert forall|i: int| 0 <= i < pre.len() && (#[trigger] cachea[i]).taken
            implies exists|e: int|
                0 <= e < contsa.len() && (#[trigger] contsa[e]).fid1 == cachea[i].fid1
                    && contsa[e].fid2 == cachea[i].fid2 by {
            if i == jc {
                assert(contsa[kk_new].fid1 == cachea[i].fid1
                    && contsa[kk_new].fid2 == cachea[i].fid2);
            } else {
                assert(cachea[i] == cacheb[i]);
                let e = choose|e: int|
                    0 <= e < contsb.len() && (#[trigger] contsb[e]).fid1 == cacheb[i].fid1
                        && contsb[e].fid2 == cacheb[i].fid2;
                assert(contsa[e] == contsb[e]);
            }
        }
    } else {
        assert forall|i: int| 0 <= i < pre.len() && (#[trigger] cachea[i]).taken
            implies exists|e: int|
                0 <= e < contsa.len() && (#[trigger] contsa[e]).fid1 == cachea[i].fid1
                    && contsa[e].fid2 == cachea[i].fid2 by {
            let e = choose|e: int|
                0 <= e < contsb.len() && (#[trigger] contsb[e]).fid1 == cacheb[i].fid1
                    && contsb[e].fid2 == cacheb[i].fid2;
            assert(contsa[e] == contsb[e]);
        }
    }
    assert forall|kk: int, j2: int|
        0 <= kk < contsa.len() && 0 <= j2 < pre.len()
            && (#[trigger] contsa[kk]).fid1 == (#[trigger] pre[j2]).fid1
            && contsa[kk].fid2 == pre[j2].fid2
            && (forall|i: int|
                0 <= i < pre.len() && i != j2
                    ==> !((#[trigger] pre[i]).fid1 == pre[j2].fid1
                        && pre[i].fid2 == pre[j2].fid2))
            && (forall|i: int|
                0 <= i < kk
                    ==> !((#[trigger] contsa[i]).fid1 == contsa[kk].fid1
                        && contsa[i].fid2 == contsa[kk].fid2))
            implies contsa[kk].id == pre[j2].id by {
        if kk < contsb.len() {
            assert(contsa[kk] == contsb[kk]);
            assert forall|i: int| 0 <= i < kk
                implies !((#[trigger] contsb[i]).fid1 == contsb[kk].fid1
                    && contsb[i].fid2 == contsb[kk].fid2) by {
                assert(contsa[i] == contsb[i]);
            }
            assert(contsb[kk].id == pre[j2].id);
        } else {
            assert(kk == kk_new);
            if find_match(cacheb, f1, f2) is Some {
                let jc = find_match(cacheb, f1, f2).unwrap();
                lemma_find_match_props(cacheb, f1, f2, 0);
                assert(pre[jc].fid1 == f1 && pre[jc].fid2 == f2);
                assert(jc == j2);
                assert(contsa[kk].id == cacheb[jc].id);
            } else {
                assert(cacheb[j2].fid1 == f1 && cacheb[j2].fid2 == f2);
                if !cacheb[j2].taken {
                    assert forall|i: int| 0 <= i < j2
                        implies !((#[trigger] cacheb[i]).fid1 == f1 && cacheb[i].fid2 == f2
                            && !cacheb[i].taken) by {
                        assert(pre[i].fid1 == cacheb[i].fid1 && pre[i].fid2 == cacheb[i].fid2);
                    }
                    lemma_find_match_skips(cacheb, f1, f2, 0, j2);
                    assert(false);
                } else {
                    let e = choose|e: int|
                        0 <= e < contsb.len() && (#[trigger] contsb[e]).fid1 == cacheb[j2].fid1
                            && contsb[e].fid2 == cacheb[j2].fid2;
                    assert(contsa[e] == contsb[e]);
                    assert(false);
                }
            }
        }
    }
}

impl ConvexPolyhedronConvexPolyhedronManifoldGenerator {
    /// Turns the raw contacts of this update into the persistent manifold:
    /// the manifold is cleared with its id cache kept, then each raw contact
    /// whose two sides assemble a kinematic descriptor is transformed to
    /// world space by `m1` and stored; the rest are dropped silently.
    fn save_new_contacts_as_contact_manifold(
        &mut self,
        m12_inv: &Placement,
        m1: &Placement,
        cones1: &ConeTable,
        cones2: &ConeTable,
        ids: &mut IdAllocator,
    )
        requires
            old(self).manifold1.wf(), old(self).manifold2.wf(),
            m1.ok(), m12_inv.ok(),
            old(ids).wf(),
            old(self).contact_manifold.wf(*old(ids)),
            raws_ok(old(self).new_contacts@),
            old(ids).next + old(self).new_contacts@.len() <= usize::MAX,
        ensures
            final(ids).wf(),
            final(self).contact_manifold.wf(*final(ids)),
            final(self).new_contacts@.len() == 0,
            final(self).manifold1 == old(self).manifold1,
            final(self).manifold2 == old(self).manifold2,
            final(self).dim == old(self).dim,
            final(self).sep_axis == old(self).sep_axis,
            final(self).contact_manifold.subshape_id1
                == old(self).contact_manifold.subshape_id1,
            final(self).contact_manifold.subshape_id2
                == old(self).contact_manifold.subshape_id2,
            final(self).contact_manifold.contacts@.len() == kept_seq(old(self).new_contacts@,
                old(self).manifold1, old(self).manifold2, *cones1, *cones2,
                old(self).new_contacts@.len() as int).len(),
            forall|j: int| 0 <= j < final(self).contact_manifold.contacts@.len()
                ==> saved_matches(#[trigger] final(self).contact_manifold.contacts@[j],
                    kept_seq(old(self).new_contacts@, old(self).manifold1, old(self).manifold2,
                        *cones1, *cones2, old(self).new_contacts@.len() as int)[j],
                    old(self).manifold1, old(self).manifold2, *cones1, *cones2, *m1, *m12_inv),
            ids_persist(old(self).contact_manifold.contacts@,
                final(self).contact_manifold.contacts@),
    {
        let ghost pre = self.contact_manifold.contacts@;
        self.contact_manifold.save_cache_and_clear(ids);
        let ghost raws = self.new_contacts@;
        let ghost next0 = ids.next;
        let mut k: usize = 0;
        while k < self.new_contacts.len()
            invariant
                self.new_contacts@ == raws,
                raws_ok(raws),
                self.manifold1.wf(), self.manifold2.wf(),
                self.manifold1 == old(self).manifold1,
                self.manifold2 == old(self).manifold2,
                self.dim == old(self).dim,
                self.sep_axis == old(self).sep_axis,
                m1.ok(), m12_inv.ok(),
                ids.wf(),
                self.contact_manifold.wf(*ids),
                self.contact_manifold.subshape_id1 == old(self).contact_manifold.subshape_id1,
                self.contact_manifold.subshape_id2 == old(self).contact_manifold.subshape_id2,
                0 <= k <= raws.len(),
                ids.next <= next0 + k,
                next0 + raws.len() <= usize::MAX,
                self.contact_manifold.contacts@.len() == kept_seq(raws, self.manifold1,
                    self.manifold2, *cones1, *cones2, k as int).len(),
                forall|j: int| 0 <= j < self.contact_manifold.contacts@.len()
                    ==> saved_matches(#[trigger] self.contact_manifold.contacts@[j],
                        kept_seq(raws, self.manifold1, self.manifold2, *cones1, *cones2,
                            k as int)[j],
                        self.manifold1, self.manifold2, *cones1, *cones2, *m1, *m12_inv),
                // The id cache keeps the previous contacts' pairs and ids;
                // an entry is taken only for a pair already stored again.
                self.contact_manifold.cache@.len() == pre.len(),
                forall|i: int| 0 <= i < pre.len()
                    ==> (#[trigger] self.contact_manifold.cache@[i]).fid1 == pre[i].fid1
                        && self.contact_manifold.cache@[i].fid2 == pre[i].fid2
                        && self.contact_manifold.cache@[i].id == pre[i].id,
                forall|i: int| 0 <= i < pre.len()
                    && (#[trigger] self.contact_manifold.cache@[i]).taken
                    ==> exists|e: int|
                        0 <= e < self.contact_manifold.contacts@.len()
                            && (#[trigger] self.contact_manifold.contacts@[e]).fid1
                                == self.contact_manifold.cache@[i].fid1
                            && self.contact_manifold.contacts@[e].fid2
                                == self.contact_manifold.cache@[i].fid2,
                ids_persist(pre, self.contact_manifold.contacts@),
            decreases raws.len() - k,
        {
            let ghost keptk = kept_seq(raws, self.manifold1, self.manifold2, *cones1, *cones2,
                k as int);
            proof {
                lemma_kept_len(raws, self.manifold1, self.manifold2, *cones1, *cones2, k as int);
            }
            let trip = self.new_contacts[k];
            let local2 = apply_placement(m12_inv, &trip.0.world2,
                Ghost(100000000000000000000000000000), Ghost(10000000000000000000000000));
            let kin1 = build_side1(trip.1, trip.0.world1, &self.manifold1, cones1);
            let kin2 = build_side2(trip.2, local2, trip.0.world2, &self.manifold2, cones2,
                m12_inv);
            match (kin1, kin2) {
                (Some(s1), Some(s2)) => {
                    let world1 = apply_placement(m1, &trip.0.world1,
                        Ghost(100000000000000000000000000000),
                        Ghost(10000000000000000000000000));
                    let world2 = apply_placement(m1, &trip.0.world2,
                        Ghost(100000000000000000000000000000),
                        Ghost(10000000000000000000000000));
                    let wn = rotate_dir(m1, &trip.0.normal, Ghost(4096));
                    let c2 = Contact { world1, world2, normal: wn, depth: trip.0.depth };
                    let kin = ContactKinematic { side1: s1, side2: s2 };
                    let ghost cacheb = self.contact_manifold.cache@;
                    let ghost contsb = self.contact_manifold.contacts@;
                    let _ = self.contact_manifold.push(c2, kin, trip.1, trip.2, ids);
                    proof {
                        let keptk1 = kept_seq(raws, self.manifold1, self.manifold2, *cones1,
                            *cones2, k as int + 1);
                        assert(keptk1 == keptk.push(raws[k as int]));
                        assert(saved_matches(self.contact_manifold.contacts@.last(),
                            raws[k as int], self.manifold1, self.manifold2, *cones1, *cones2,
                            *m1, *m12_inv));
                        lemma_after_push(pre, cacheb, contsb,
                            self.contact_manifold.cache@, self.contact_manifold.contacts@,
                            trip.1, trip.2, self.contact_manifold.contacts@.last().id);
                    }
                },
                _ => {
                    proof {
                        assert(kept_seq(raws, self.manifold1, self.manifold2, *cones1, *cones2,
                            k as int + 1) == keptk);
                    }
                },
            }
            k += 1;
        }
        self.new_contacts.clear();
    }

    /// The update step for a query that found a closest-point pair. The
    /// caller has extracted both supporting features toward the contact
    /// normal (negated for the second shape) and supplies each shape's
    /// normal cones at the reported feature ids. The features are clipped,
    /// a lone query contact stands in when clipping yields nothing, and the
    /// kinematic assembly rebuilds the manifold while preserving point
    /// identity through its id cache. Returns (as a ghost value) the raw
    /// contacts of this update, exactly those of `update_raw_model`.
    #[verifier::rlimit(60)]
    pub fn update_with_closest_points(
        &mut self,
        ida: usize,
        idb: usize,
        local1: &Vect,
        local2: &Vect,
        normal: &Vect,
        feats1: ConvexPolygonalFeature,
        feats2: ConvexPolygonalFeature,
        cones1: &ConeTable,
        cones2: &ConeTable,
        prediction: &ContactPrediction,
        m1: &Placement,
        m12_inv: &Placement,
        ids: &mut IdAllocator,
    ) -> (r: Ghost<Seq<(Contact, FeatureId, FeatureId)>>)
        requires
            local1.ok(), local2.ok(), normal.ok(), !normal.is_zero(),
            feats1.wf(), feats2.wf(),
            feats1.vertices@.len() >= 1, feats2.vertices@.len() >= 1,
            query_within_margin(*local1, *local2, *normal, prediction.linear),
            prediction.wf(), m1.ok(), m12_inv.ok(),
            old(ids).wf(),
            old(self).wf(*old(ids)),
            old(ids).next + feats1.vertices@.len() + feats2.vertices@.len()
                + feats1.edges_id@.len() * feats2.edges_id@.len() + 1 <= usize::MAX,
        ensures
            final(ids).wf(),
            final(self).wf(*final(ids)),
            final(self).dim == old(self).dim,
            final(self).sep_axis == old(self).sep_axis,
            final(self).manifold1 == feats1,
            final(self).manifold2 == feats2,
            final(self).new_contacts@.len() == 0,
            final(self).contact_manifold.subshape_id1 == ida,
            final(self).contact_manifold.subshape_id2 == idb,
            raws_match(r@, *normal, update_raw_model(old(self).dim, feats1, feats2, *local1,
                *local2, *normal, prediction.linear)),
            final(self).contact_manifold.contacts@.len() == kept_seq(r@, feats1, feats2,
                *cones1, *cones2, r@.len() as int).len(),
            forall|j: int| 0 <= j < final(self).contact_manifold.contacts@.len()
                ==> saved_matches(#[trigger] final(self).contact_manifold.contacts@[j],
                    kept_seq(r@, feats1, feats2, *cones1, *cones2, r@.len() as int)[j],
                    feats1, feats2, *cones1, *cones2, *m1, *m12_inv),
            // The retention invariant: every stored contact is within the
            // prediction margin.
            forall|j: int| 0 <= j < final(self).contact_manifold.contacts@.len()
                ==> accepted_spec(
                    (#[trigger] final(self).contact_manifold.contacts@[j]).contact.depth,
                    prediction.linear),
            // Warm-started identity: a contact whose generating feature pair
            // is unchanged from the previous update keeps its stored id.
            ids_persist(old(self).contact_manifold.contacts@,
                final(self).contact_manifold.contacts@),
    {
        self.contact_manifold.set_subshape_id1(ida);
        self.contact_manifold.set_subshape_id2(idb);
        self.manifold1 = feats1;
        self.manifold2 = feats2;
        let ghost model = update_raw_model(self.dim, self.manifold1, self.manifold2, *local1,
            *local2, *normal, prediction.linear);
        match self.dim {
            Dimension::Two => {
                self.new_contacts.clear();
                clip_segments(&self.manifold1, &self.manifold2, normal, prediction,
                    &mut self.new_contacts);
                proof {
                    lemma_clip2_len(self.manifold1, self.manifold2, *normal, prediction.linear);
                    assert(self.new_contacts@.skip(0) =~= self.new_contacts@);
                    assert(0 <= feats1.edges_id@.len() * feats2.edges_id@.len())
                        by (nonlinear_arith);
                }
            },
            Dimension::Three => {
                clip_polygons(&self.manifold1, &self.manifold2, normal, prediction,
                    &mut self.clip_cache, &mut self.new_contacts);
                proof {
                    lemma_clip3_len(self.manifold1, self.manifold2, *normal, prediction.linear);
                }
            },
        }
        if self.new_contacts.len() == 0 {
            let c = single_point_contact(local1, local2, normal);
            self.new_contacts.push((c, self.manifold1.feature_id, self.manifold2.feature_id));
            proof {
                assert(raw_matches((c, self.manifold1.feature_id, self.manifold2.feature_id),
                    *normal, model[0]));
                assert(raws_match(self.new_contacts@, *normal, model));
            }
        }
        let ghost raws = self.new_contacts@;
        proof {
            assert(raws_match(raws, *normal, model));
            lemma_raws_ok_from_match(raws, *normal, model);
        }
        self.save_new_contacts_as_contact_manifold(m12_inv, m1, cones1, cones2, ids);
        proof {
            lemma_raw_model_accepted(self.dim, self.manifold1, self.manifold2, *local1, *local2,
                *normal, prediction.linear);
            lemma_kept_subset(raws, self.manifold1, self.manifold2, *cones1, *cones2,
                raws.len() as int);
            let kept = kept_seq(raws, self.manifold1, self.manifold2, *cones1, *cones2,
                raws.len() as int);
            assert forall|j: int| 0 <= j < self.contact_manifold.contacts@.len()
                implies accepted_spec(
                    (#[trigger] self.contact_manifold.contacts@[j]).contact.depth,
                    prediction.linear) by {
                assert(self.contact_manifold.contacts@[j].contact.depth == kept[j].0.depth);
                let e = choose|e: int| 0 <= e < raws.len() && kept[j] == raws[e];
                assert(raw_matches(raws[e], *normal, model[e]));
                assert(model_accepted(model[e], prediction.linear));
            }
        }
        Ghost(raws)
    }
}

/// Separating-axis shortcut correctness: once the cached axis rejects a
/// configuration, any motion that moves the shapes further apart along that
/// axis (the support point's projection `d` can only decrease) still
/// rejects — the manifold stays empty without re-invoking the query or the
/// feature extraction.
pub proof fn lemma_sep_axis_monotone(d1: int, d2: int, linear: Frac)
    requires
        linear.wf(),
        sep_rejects(d1, linear),
        d2 <= d1,
    ensures
        sep_rejects(d2, linear),
{
    assert(-d2 * linear.den as int >= -d1 * linear.den as int) by (nonlinear_arith)
        requires d2 <= d1, 0 < linear.den as int;
}

/// Idempotence: two updates fed the same query outcome, features, cones and
/// placements store identical contact counts, positions, normals, depths and
/// kinematics; only the solver ids may differ (and id persistence keeps even
/// those, when feature pairs are unique).
pub proof fn lemma_update_idempotent(
    raws_a: Seq<(Contact, FeatureId, FeatureId)>,
    raws_b: Seq<(Contact, FeatureId, FeatureId)>,
    contacts_a: Seq<crate::manifold::TrackedContact>,
    contacts_b: Seq<crate::manifold::TrackedContact>,
    n: Vect,
    model: Seq<ContactModel>,
    feat1: ConvexPolygonalFeature,
    feat2: ConvexPolygonalFeature,
    cones1: ConeTable,
    cones2: ConeTable,
    m1: Placement,
    m12_inv: Placement,
)
    requires
        raws_match(raws_a, n, model),
        raws_match(raws_b, n, model),
        contacts_a.len() == kept_seq(raws_a, feat1, feat2, cones1, cones2,
            raws_a.len() as int).len(),
        forall|j: int| 0 <= j < contacts_a.len()
            ==> saved_matches(#[trigger] contacts_a[j], kept_seq(raws_a, feat1, feat2, cones1,
                cones2, raws_a.len() as int)[j], feat1, feat2, cones1, cones2, m1, m12_inv),
        contacts_b.len() == kept_seq(raws_b, feat1, feat2, cones1, cones2,
            raws_b.len() as int).len(),
        forall|j: int| 0 <= j < contacts_b.len()
            ==> saved_matches(#[trigger] contacts_b[j], kept_seq(raws_b, feat1, feat2, cones1,
                cones2, raws_b.len() as int)[j], feat1, feat2, cones1, cones2, m1, m12_inv),
    ensures
        contacts_a.len() == contacts_b.len(),
        forall|j: int| 0 <= j < contacts_a.len()
            ==> (#[trigger] contacts_a[j]).contact == contacts_b[j].contact
                && contacts_a[j].kinematic == contacts_b[j].kinematic
                && contacts_a[j].fid1 == contacts_b[j].fid1
                && contacts_a[j].fid2 == contacts_b[j].fid2,
{
    assert forall|k: int| 0 <= k < raws_a.len() implies #[trigger] raws_a[k] == raws_b[k] by {
        assert(raw_matches(raws_a[k], n, model[k]));
        assert(raw_matches(raws_b[k], n, model[k]));
        lemma_raw_deterministic(raws_a[k], raws_b[k], n, model[k]);
    }
    assert(raws_a =~= raws_b);
    let kept = kept_seq(raws_a, feat1, feat2, cones1, cones2, raws_a.len() as int);
    assert forall|j: int| 0 <= j < contacts_a.len()
        implies (#[trigger] contacts_a[j]).contact == contacts_b[j].contact
            && contacts_a[j].kinematic == contacts_b[j].kinematic
            && contacts_a[j].fid1 == contacts_b[j].fid1
            && contacts_a[j].fid2 == contacts_b[j].fid2 by {
        assert(saved_matches(contacts_a[j], kept[j], feat1, feat2, cones1, cones2, m1,
            m12_inv));
        assert(saved_matches(contacts_b[j], kept[j], feat1, feat2, cones1, cones2, m1,
            m12_inv));
        lemma_saved_deterministic(contacts_a[j], contacts_b[j], kept[j], feat1, feat2, cones1,
            cones2, m1, m12_inv);
    }
}

/// Two raw contacts matching the same mathematical contact are equal.
proof fn lemma_raw_deterministic(
    ea: (Contact, FeatureId, FeatureId),
    eb: (Contact, FeatureId, FeatureId),
    n: Vect,
    m: ContactModel,
)
    requires
        raw_matches(ea, n, m),
        raw_matches(eb, n, m),
    ensures
        ea == eb,
{
}

/// Two stored manifold points matching the same raw contact agree in
/// everything but their id.
proof fn lemma_saved_deterministic(
    ta: crate::manifold::TrackedContact,
    tb: crate::manifold::TrackedContact,
    raw: (Contact, FeatureId, FeatureId),
    feat1: ConvexPolygonalFeature,
    feat2: ConvexPolygonalFeature,
    cones1: ConeTable,
    cones2: ConeTable,
    m1: Placement,
    m12_inv: Placement,
)
    requires
        saved_matches(ta, raw, feat1, feat2, cones1, cones2, m1, m12_inv),
        saved_matches(tb, raw, feat1, feat2, cones1, cones2, m1, m12_inv),
    ensures
        ta.contact == tb.contact,
        ta.kinematic == tb.kinematic,
        ta.fid1 == tb.fid1,
        ta.fid2 == tb.fid2,
{
    match raw.1 {
        FeatureId::Face(_) => {},
        FeatureId::Edge(_) => {},
        FeatureId::Vertex(_) => {},
        FeatureId::Unknown => {},
    }
    match raw.2 {
        FeatureId::Face(_) => {},
        FeatureId::Edge(_) => {},
        FeatureId::Vertex(_) => {},
        FeatureId::Unknown => {},
    }
}

} // verus!
