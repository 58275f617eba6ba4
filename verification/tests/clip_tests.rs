use convex_manifold::clip::{clip_polygons, clip_segments, ClippingCache, ContactPrediction};
use convex_manifold::contact::Contact;
use convex_manifold::feature::{ConvexPolygonalFeature, FeatureId};
use convex_manifold::geometry::Vect;
use convex_manifold::rational::Frac;

fn v(x: i64, y: i64, z: i64) -> Vect {
    Vect { x, y, z }
}

fn prediction(linear_num: i128, linear_den: i128) -> ContactPrediction {
    ContactPrediction {
        linear: Frac { num: linear_num, den: linear_den },
        angular1: Frac { num: 0, den: 1 },
        angular2: Frac { num: 0, den: 1 },
    }
}

fn segment_feature(a: Vect, b: Vect, base: usize) -> ConvexPolygonalFeature {
    ConvexPolygonalFeature {
        vertices: vec![a, b],
        vertices_id: vec![FeatureId::Vertex(base), FeatureId::Vertex(base + 1)],
        edges_id: vec![FeatureId::Edge(base)],
        feature_id: FeatureId::Edge(base),
        normal: None,
    }
}

fn square_face(half: i64, z: i64, flip: bool, base: usize) -> ConvexPolygonalFeature {
    let vertices = vec![
        v(half, half, z),
        v(-half, half, z),
        v(-half, -half, z),
        v(half, -half, z),
    ];
    ConvexPolygonalFeature {
        vertices,
        vertices_id: vec![
            FeatureId::Vertex(base),
            FeatureId::Vertex(base + 1),
            FeatureId::Vertex(base + 2),
            FeatureId::Vertex(base + 3),
        ],
        edges_id: vec![
            FeatureId::Edge(base),
            FeatureId::Edge(base + 1),
            FeatureId::Edge(base + 2),
            FeatureId::Edge(base + 3),
        ],
        feature_id: FeatureId::Face(base),
        normal: Some(if flip { v(0, 0, -1) } else { v(0, 0, 1) }),
    }
}

#[test]
fn two_dimensional_edge_overlap_yields_two_contacts() {
    // Two unit-scaled squares meeting edge to edge, the second offset along
    // the shared axis: the overlap of the two vertical edges gives exactly
    // two contacts, one per overlap boundary.
    let f1 = segment_feature(v(5, -5, 0), v(5, 5, 0), 0);
    let f2 = segment_feature(v(6, 8, 0), v(6, -2, 0), 10);
    let n = v(1, 0, 0);
    let mut out: Vec<(Contact, FeatureId, FeatureId)> = Vec::new();
    clip_segments(&f1, &f2, &n, &prediction(2, 1), &mut out);
    assert_eq!(out.len(), 2);
    // First boundary: the later-starting segment's start, interpolated on
    // the first segment at barycentric coordinate 3/10.
    let (c, fa, fb) = &out[0];
    assert_eq!(c.world1.nx, 50);
    assert_eq!(c.world1.ny, -20);
    assert_eq!(c.world1.den, 10);
    assert_eq!(c.world2.nx, 6);
    assert_eq!(c.world2.ny, -2);
    assert_eq!(c.world2.den, 1);
    assert_eq!(*fa, FeatureId::Edge(0));
    assert_eq!(*fb, FeatureId::Vertex(11));
    // Depth is exactly -1 on both contacts.
    assert_eq!(c.depth.num * 1, -1 * c.depth.den);
    let (c2, fa2, fb2) = &out[1];
    assert_eq!(c2.world1.nx, 5);
    assert_eq!(c2.world1.ny, 5);
    assert_eq!(c2.world1.den, 1);
    assert_eq!(c2.world2.ny * 1, 5 * c2.world2.den);
    assert_eq!(*fa2, FeatureId::Vertex(1));
    assert_eq!(*fb2, FeatureId::Edge(10));
    assert_eq!(c2.depth.num * 1, -1 * c2.depth.den);
}

#[test]
fn two_dimensional_margin_drops_far_contacts() {
    // The same overlap, but the gap (4) exceeds the margin (2): the clipper
    // keeps nothing.
    let f1 = segment_feature(v(5, -5, 0), v(5, 5, 0), 0);
    let f2 = segment_feature(v(9, 8, 0), v(9, -2, 0), 10);
    let n = v(1, 0, 0);
    let mut out: Vec<(Contact, FeatureId, FeatureId)> = Vec::new();
    clip_segments(&f1, &f2, &n, &prediction(2, 1), &mut out);
    assert_eq!(out.len(), 0);
}

#[test]
fn two_dimensional_disjoint_projections_yield_nothing() {
    // Projections on the orthogonal axis do not overlap at all.
    let f1 = segment_feature(v(5, -5, 0), v(5, 5, 0), 0);
    let f2 = segment_feature(v(6, 20, 0), v(6, 30, 0), 10);
    let n = v(1, 0, 0);
    let mut out: Vec<(Contact, FeatureId, FeatureId)> = Vec::new();
    clip_segments(&f1, &f2, &n, &prediction(2, 1), &mut out);
    assert_eq!(out.len(), 0);
}

#[test]
fn three_dimensional_face_contact_keeps_inner_vertices() {
    // The smaller face's four vertices project inside the larger one; each
    // is paired with its projection onto the larger face's plane.
    let f1 = square_face(5, 5, false, 0);
    let f2 = square_face(4, 6, true, 10);
    let n = v(0, 0, 1);
    let mut cache = ClippingCache::new();
    let mut out: Vec<(Contact, FeatureId, FeatureId)> = Vec::new();
    clip_polygons(&f1, &f2, &n, &prediction(2, 1), &mut cache, &mut out);
    assert_eq!(out.len(), 4);
    for (c, fa, fb) in &out {
        // Depth is exactly -1: the faces are one unit apart.
        assert_eq!(c.depth.num * 1, -1 * c.depth.den);
        assert_eq!(*fa, FeatureId::Face(0));
        assert!(matches!(*fb, FeatureId::Vertex(_)));
        assert_eq!(c.normal, n);
    }
}

#[test]
fn three_dimensional_separated_faces_rejected_by_margin() {
    // One unit gap times four: farther than the margin allows.
    let f1 = square_face(5, 5, false, 0);
    let f2 = square_face(4, 10, true, 10);
    let n = v(0, 0, 1);
    let mut cache = ClippingCache::new();
    let mut out: Vec<(Contact, FeatureId, FeatureId)> = Vec::new();
    clip_polygons(&f1, &f2, &n, &prediction(2, 1), &mut cache, &mut out);
    assert_eq!(out.len(), 0);
}

#[test]
fn three_dimensional_crossed_edges_meet_in_the_interior() {
    // Two squares rotated a quarter turn against each other so that their
    // boundary edges cross: every contact comes from an edge pair.
    let f1 = square_face(5, 5, false, 0);
    let diamond = ConvexPolygonalFeature {
        vertices: vec![v(6, 0, 6), v(0, 6, 6), v(-6, 0, 6), v(0, -6, 6)],
        vertices_id: vec![
            FeatureId::Vertex(10),
            FeatureId::Vertex(11),
            FeatureId::Vertex(12),
            FeatureId::Vertex(13),
        ],
        edges_id: vec![
            FeatureId::Edge(10),
            FeatureId::Edge(11),
            FeatureId::Edge(12),
            FeatureId::Edge(13),
        ],
        feature_id: FeatureId::Face(10),
        normal: Some(v(0, 0, -1)),
    };
    let n = v(0, 0, 1);
    let mut cache = ClippingCache::new();
    let mut out: Vec<(Contact, FeatureId, FeatureId)> = Vec::new();
    clip_polygons(&f1, &diamond, &n, &prediction(2, 1), &mut cache, &mut out);
    let edge_pairs = out
        .iter()
        .filter(|(_, fa, fb)| {
            matches!(fa, FeatureId::Edge(_)) && matches!(fb, FeatureId::Edge(_))
        })
        .count();
    assert_eq!(edge_pairs, 8);
    for (c, _, _) in &out {
        assert_eq!(c.depth.num * 1, -1 * c.depth.den);
    }
}
