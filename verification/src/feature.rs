//! Feature identifiers, polygonal features, and normal cones.

use vstd::prelude::*;
use crate::geometry::Vect;
use crate::rational::{Frac, COORD_LIMIT};

verus! {

/// Identifies which sub-part of a convex shape produced a contact point.
/// Stable across frames for the same physical region, which is what makes
/// warm-starting possible. `Unknown` never tags a real contact.
#[derive(Clone, Copy, Debug, PartialEq, Eq, Structural)]
pub enum FeatureId {
    Vertex(usize),
    Edge(usize),
    Face(usize),
    Unknown,
}

impl FeatureId {
    pub open spec fn known(self) -> bool {
        self != FeatureId::Unknown
    }
}

/// The locally supporting feature of one shape for a direction: an ordered
/// loop of vertices, one id per vertex, one id per boundary edge, the
/// feature's own id, and the supporting-plane normal when the feature is a
/// face. Filled by the (external) extractor, read by the clipper.
#[derive(Clone, Debug)]
pub struct ConvexPolygonalFeature {
    pub vertices: Vec<Vect>,
    pub vertices_id: Vec<FeatureId>,
    pub edges_id: Vec<FeatureId>,
    pub feature_id: FeatureId,
    pub normal: Option<Vect>,
}

impl ConvexPolygonalFeature {
    /// Structural well-formedness: parallel id arrays, ids known, bounded
    /// coordinates, and a supporting plane present on any true polygon.
    pub open spec fn wf(self) -> bool {
        &&& self.vertices.len() == self.vertices_id.len()
        &&& self.edges_id.len() <= self.vertices.len()
        &&& forall|i: int| 0 <= i < self.vertices.len() ==> #[trigger] self.vertices[i].ok()
        &&& forall|i: int| 0 <= i < self.vertices_id.len() ==> #[trigger] self.vertices_id[i].known()
        &&& forall|i: int| 0 <= i < self.edges_id.len() ==> #[trigger] self.edges_id[i].known()
        &&& self.feature_id.known()
        &&& self.vertices.len() > 2 ==> self.normal is Some
        &&& self.normal is Some ==> self.normal.unwrap().ok()
    }

    pub fn new() -> (r: ConvexPolygonalFeature)
        ensures
            r.vertices@.len() == 0,
            r.vertices_id@.len() == 0,
            r.edges_id@.len() == 0,
            r.feature_id == FeatureId::Vertex(0usize),
            r.normal is None,
            r.wf(),
    {
        ConvexPolygonalFeature {
            vertices: Vec::new(),
            vertices_id: Vec::new(),
            edges_id: Vec::new(),
            feature_id: FeatureId::Vertex(0),
            normal: None,
        }
    }

    /// Empties the feature so the extractor can refill it next update.
    pub fn clear(&mut self)
        ensures
            final(self).vertices@.len() == 0,
            final(self).vertices_id@.len() == 0,
            final(self).edges_id@.len() == 0,
            final(self).feature_id == old(self).feature_id,
            final(self).normal is None,
    {
        self.vertices.clear();
        self.vertices_id.clear();
        self.edges_id.clear();
        self.normal = None;
    }

}

/// The set of directions consistent with a feature being the supporting one:
/// a single half-line for a face; for an edge or vertex a cone, described by
/// its axis and its angular aperture.
#[derive(Clone, Copy, Debug)]
pub enum NormalCone {
    HalfLine(Vect),
    Cone { axis: Vect, aperture: Frac },
}

/// A shape's normal cones at the feature ids the extractor reported, supplied
/// by the caller alongside the extracted feature.
#[derive(Clone, Debug)]
pub struct ConeTable {
    pub entries: Vec<(FeatureId, NormalCone)>,
}

impl ConeTable {
    /// The first entry carrying `fid`, if any.
    pub open spec fn lookup_spec(self, fid: FeatureId) -> Option<NormalCone> {
        self.find_from(fid, 0)
    }

    pub open spec fn find_from(self, fid: FeatureId, i: int) -> Option<NormalCone>
        decreases self.entries.len() - i,
    {
        if i < 0 || i >= self.entries.len() {
            None
        } else if self.entries[i].0 == fid {
            Some(self.entries[i].1)
        } else {
            self.find_from(fid, i + 1)
        }
    }

    pub fn lookup(&self, fid: FeatureId) -> (r: Option<&NormalCone>)
        ensures
            match r {
                Some(c) => self.lookup_spec(fid) == Some(*c),
                None => self.lookup_spec(fid) is None,
            },
    {
        let mut i: usize = 0;
        while i < self.entries.len()
            invariant
                0 <= i <= self.entries.len(),
                self.find_from(fid, 0) == self.find_from(fid, i as int),
            decreases self.entries.len() - i,
        {
            if self.entries[i].0 == fid {
                return Some(&self.entries[i].1);
            }
            i += 1;
        }
        None
    }
}

} // verus!
