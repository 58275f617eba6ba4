//! Persistent contact-manifold generation between two convex polyhedral
//! shapes, over exact integer and rational arithmetic.
//!
//! The library is the narrow-phase stage of a rigid-body pipeline: given the
//! outcome of a closest-point/separation query and the locally supporting
//! features of the two shapes, it clips the features against each other,
//! filters the resulting contact points by a prediction margin, attaches a
//! kinematic correspondence to each point, and stores them in a persistent
//! manifold whose point ids survive from one update to the next.
//!
//! The closest-point query and the feature extraction themselves are external
//! collaborators: the caller runs them and hands their results to the
//! generator as plain values (integer coordinates bounded by `COORD_LIMIT`).
//! All geometry in here is exact: points produced by clipping are rationals
//! with an explicit denominator, never rounded.

pub mod rational;
pub mod geometry;
pub mod feature;
pub mod contact;
pub mod ids;
pub mod manifold;
pub mod clip;
pub mod generator;
