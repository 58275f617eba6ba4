//! Contact points and their kinematic correspondence descriptors.

use vstd::prelude::*;
use crate::feature::{FeatureId, NormalCone};
use crate::geometry::{FracVect, Vect};
use crate::rational::Frac;

verus! {

/// One contact: a point on each shape (in a common frame), the contact
/// normal, and the signed depth. Negative depth means the points are
/// separated along the normal.
#[derive(Clone, Copy, Debug)]
pub struct Contact {
    pub world1: FracVect,
    pub world2: FracVect,
    pub normal: Vect,
    pub depth: Frac,
}

impl Contact {
    pub open spec fn wf(self) -> bool {
        &&& self.world1.wf()
        &&& self.world2.wf()
        &&& self.depth.wf()
    }
}

/// How one side of a contact should be re-projected as the bodies move: a
/// plane for a face, a line for an edge, a point for a vertex. The stored
/// point is in that shape's local frame; directions are unnormalized.
#[derive(Clone, Debug)]
pub enum SideKinematic {
    Plane { fid: FeatureId, local: FracVect, half_line: Vect },
    Line { fid: FeatureId, local: FracVect, dir: Vect, cone: NormalCone },
    Point { fid: FeatureId, local: FracVect, cone: NormalCone },
}

impl SideKinematic {
    pub open spec fn fid(self) -> FeatureId {
        match self {
            SideKinematic::Plane { fid, .. } => fid,
            SideKinematic::Line { fid, .. } => fid,
            SideKinematic::Point { fid, .. } => fid,
        }
    }

    pub open spec fn local(self) -> FracVect {
        match self {
            SideKinematic::Plane { local, .. } => local,
            SideKinematic::Line { local, .. } => local,
            SideKinematic::Point { local, .. } => local,
        }
    }
}

/// The correspondence model of a whole contact, one descriptor per side.
#[derive(Clone, Debug)]
pub struct ContactKinematic {
    pub side1: SideKinematic,
    pub side2: SideKinematic,
}

} // verus!
