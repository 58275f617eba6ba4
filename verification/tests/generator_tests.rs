use convex_manifold::clip::ContactPrediction;
use convex_manifold::contact::SideKinematic;
use convex_manifold::feature::{ConeTable, ConvexPolygonalFeature, FeatureId, NormalCone};
use convex_manifold::generator::{
    closest_points_depth, ConvexPolyhedronConvexPolyhedronManifoldGenerator, Dimension,
};
use convex_manifold::geometry::{Placement, Vect};
use convex_manifold::ids::IdAllocator;
use convex_manifold::rational::Frac;

fn v(x: i64, y: i64, z: i64) -> Vect {
    Vect { x, y, z }
}

fn prediction(linear_num: i128, linear_den: i128) -> ContactPrediction {
    ContactPrediction {
        linear: Frac { num: linear_num, den: linear_den },
        angular1: Frac { num: 0, den: 1 },
        angular2: Frac { num: 0, den: 1 },
    }
}

fn square_face(half: i64, z: i64, flip: bool, base: usize) -> ConvexPolygonalFeature {
    ConvexPolygonalFeature {
        vertices: vec![
            v(half, half, z),
            v(-half, half, z),
            v(-half, -half, z),
            v(half, -half, z),
        ],
        vertices_id: vec![
            FeatureId::Vertex(base),
            FeatureId::Vertex(base + 1),
            FeatureId::Vertex(base + 2),
            FeatureId::Vertex(base + 3),
        ],
        edges_id: vec![
            FeatureId::Edge(base),
            FeatureId::Edge(base + 1),
            FeatureId::Edge(base + 2),
            FeatureId::Edge(base + 3),
        ],
        feature_id: FeatureId::Face(base),
        normal: Some(if flip { v(0, 0, -1) } else { v(0, 0, 1) }),
    }
}

fn face_cones(base: usize, axis: Vect) -> ConeTable {
    let mut entries: Vec<(FeatureId, NormalCone)> = Vec::new();
    entries.push((FeatureId::Face(base), NormalCone::HalfLine(axis)));
    for k in 0..4 {
        entries.push((
            FeatureId::Vertex(base + k),
            NormalCone::Cone { axis, aperture: Frac { num: 1, den: 2 } },
        ));
        entries.push((
            FeatureId::Edge(base + k),
            NormalCone::Cone { axis, aperture: Frac { num: 1, den: 4 } },
        ));
    }
    ConeTable { entries }
}

fn segment_feature(a: Vect, b: Vect, base: usize) -> ConvexPolygonalFeature {
    ConvexPolygonalFeature {
        vertices: vec![a, b],
        vertices_id: vec![FeatureId::Vertex(base), FeatureId::Vertex(base + 1)],
        edges_id: vec![FeatureId::Edge(base)],
        feature_id: FeatureId::Edge(base),
        normal: None,
    }
}

fn edge_cones(base: usize, axis: Vect) -> ConeTable {
    ConeTable {
        entries: vec![
            (FeatureId::Edge(base), NormalCone::Cone { axis, aperture: Frac { num: 1, den: 4 } }),
            (
                FeatureId::Vertex(base),
                NormalCone::Cone { axis, aperture: Frac { num: 1, den: 2 } },
            ),
            (
                FeatureId::Vertex(base + 1),
                NormalCone::Cone { axis, aperture: Frac { num: 1, den: 2 } },
            ),
        ],
    }
}

#[test]
fn face_contact_stores_four_points() {
    // Two axis-aligned boxes one unit apart, the upper face smaller: four
    // contacts, each of depth exactly -1 along (0, 0, 1).
    let mut gen = ConvexPolyhedronConvexPolyhedronManifoldGenerator::new(Dimension::Three);
    let mut ids = IdAllocator::new();
    let m1 = Placement::identity();
    let n = v(0, 0, 1);
    let _ = gen.update_with_closest_points(
        0,
        1,
        &v(0, 0, 5),
        &v(0, 0, 6),
        &n,
        square_face(5, 5, false, 0),
        square_face(4, 6, true, 10),
        &face_cones(0, v(0, 0, 1)),
        &face_cones(10, v(0, 0, -1)),
        &prediction(2, 1),
        &m1,
        &m1,
        &mut ids,
    );
    assert_eq!(gen.num_contacts(), 4);
    for tc in &gen.contact_manifold.contacts {
        assert_eq!(tc.contact.depth.num * 1, -1 * tc.contact.depth.den);
        assert_eq!(tc.contact.normal, n);
        assert_eq!(tc.fid1, FeatureId::Face(0));
        assert!(matches!(tc.fid2, FeatureId::Vertex(_)));
    }
    let mut out = Vec::new();
    gen.contacts(&mut out);
    assert_eq!(out.len(), 1);
    assert_eq!(out[0].subshape_id1, 0);
    assert_eq!(out[0].subshape_id2, 1);
}

#[test]
fn repeated_update_is_idempotent_and_ids_persist() {
    // Unchanged inputs across consecutive updates: same count, same
    // positions, and (the feature pairs being distinct) the very same ids.
    let mut gen = ConvexPolyhedronConvexPolyhedronManifoldGenerator::new(Dimension::Three);
    let mut ids = IdAllocator::new();
    let m1 = Placement::identity();
    let n = v(0, 0, 1);
    let run = |gen: &mut ConvexPolyhedronConvexPolyhedronManifoldGenerator,
               ids: &mut IdAllocator| {
        let _ = gen.update_with_closest_points(
            0,
            1,
            &v(0, 0, 5),
            &v(0, 0, 6),
            &n,
            square_face(5, 5, false, 0),
            square_face(4, 6, true, 10),
            &face_cones(0, v(0, 0, 1)),
            &face_cones(10, v(0, 0, -1)),
            &prediction(2, 1),
            &m1,
            &m1,
            ids,
        );
    };
    run(&mut gen, &mut ids);
    let first: Vec<(i128, i128, i128, i128, usize)> = gen
        .contact_manifold
        .contacts
        .iter()
        .map(|tc| {
            (tc.contact.world1.nx, tc.contact.world1.ny, tc.contact.world1.nz,
                tc.contact.world1.den, tc.id)
        })
        .collect();
    run(&mut gen, &mut ids);
    let second: Vec<(i128, i128, i128, i128, usize)> = gen
        .contact_manifold
        .contacts
        .iter()
        .map(|tc| {
            (tc.contact.world1.nx, tc.contact.world1.ny, tc.contact.world1.nz,
                tc.contact.world1.den, tc.id)
        })
        .collect();
    assert_eq!(first.len(), 4);
    assert_eq!(first, second);
}

#[test]
fn swapping_the_shapes_negates_normals_and_keeps_depths() {
    // A-B symmetry on the two-dimensional overlap: swapping which shape is
    // first and negating the normal yields equal depths and the negated
    // normal on every stored contact.
    let mut ga = ConvexPolyhedronConvexPolyhedronManifoldGenerator::new(Dimension::Two);
    let mut gb = ConvexPolyhedronConvexPolyhedronManifoldGenerator::new(Dimension::Two);
    let mut ids_a = IdAllocator::new();
    let mut ids_b = IdAllocator::new();
    let m1 = Placement::identity();
    let _ = ga.update_with_closest_points(
        0,
        1,
        &v(5, 0, 0),
        &v(6, 0, 0),
        &v(1, 0, 0),
        segment_feature(v(5, -5, 0), v(5, 5, 0), 0),
        segment_feature(v(6, 8, 0), v(6, -2, 0), 10),
        &edge_cones(0, v(1, 0, 0)),
        &edge_cones(10, v(-1, 0, 0)),
        &prediction(2, 1),
        &m1,
        &m1,
        &mut ids_a,
    );
    let _ = gb.update_with_closest_points(
        1,
        0,
        &v(6, 0, 0),
        &v(5, 0, 0),
        &v(-1, 0, 0),
        segment_feature(v(6, 8, 0), v(6, -2, 0), 10),
        segment_feature(v(5, -5, 0), v(5, 5, 0), 0),
        &edge_cones(10, v(-1, 0, 0)),
        &edge_cones(0, v(1, 0, 0)),
        &prediction(2, 1),
        &m1,
        &m1,
        &mut ids_b,
    );
    assert_eq!(ga.num_contacts(), 2);
    assert_eq!(gb.num_contacts(), 2);
    for (ta, tb) in ga.contact_manifold.contacts.iter().zip(gb.contact_manifold.contacts.iter())
    {
        assert_eq!(
            ta.contact.depth.num * tb.contact.depth.den,
            tb.contact.depth.num * ta.contact.depth.den
        );
        assert_eq!(ta.contact.normal.x, -tb.contact.normal.x);
        assert_eq!(ta.contact.normal.y, -tb.contact.normal.y);
        assert_eq!(ta.contact.normal.z, -tb.contact.normal.z);
    }
}

#[test]
fn separation_caches_the_axis_and_keeps_rejecting() {
    // A query that proves separation caches the axis; as long as the
    // caller's support point keeps the estimated separation beyond the
    // margin, the update ends with an empty manifold and no extraction.
    let mut gen = ConvexPolyhedronConvexPolyhedronManifoldGenerator::new(Dimension::Three);
    let mut ids = IdAllocator::new();
    gen.update_separated(0, 1, v(0, 0, 1), &mut ids);
    assert_eq!(gen.num_contacts(), 0);
    assert_eq!(gen.cached_separating_axis(), Some(v(0, 0, 1)));
    // Estimated separation 3, margin 2: still apart.
    assert!(gen.try_cached_axis_rejection(&v(0, 0, -3), &prediction(2, 1), &mut ids));
    assert_eq!(gen.num_contacts(), 0);
    // Moving further apart along the axis keeps rejecting.
    assert!(gen.try_cached_axis_rejection(&v(0, 0, -5), &prediction(2, 1), &mut ids));
    assert_eq!(gen.cached_separating_axis(), Some(v(0, 0, 1)));
    // Coming closer than the margin invalidates the cache.
    assert!(!gen.try_cached_axis_rejection(&v(0, 0, -1), &prediction(2, 1), &mut ids));
    assert_eq!(gen.cached_separating_axis(), None);
}

#[test]
fn clipless_update_keeps_the_query_point_pair() {
    // Two vertex features: nothing to clip, so the query's own point pair
    // stands as the sole contact (the query grants it is within the margin).
    let mut gen = ConvexPolyhedronConvexPolyhedronManifoldGenerator::new(Dimension::Three);
    let mut ids = IdAllocator::new();
    let m1 = Placement::identity();
    let pt1 = ConvexPolygonalFeature {
        vertices: vec![v(1, 1, 1)],
        vertices_id: vec![FeatureId::Vertex(7)],
        edges_id: vec![],
        feature_id: FeatureId::Vertex(7),
        normal: None,
    };
    let pt2 = ConvexPolygonalFeature {
        vertices: vec![v(4, 1, 1)],
        vertices_id: vec![FeatureId::Vertex(9)],
        edges_id: vec![],
        feature_id: FeatureId::Vertex(9),
        normal: None,
    };
    let cones1 = ConeTable {
        entries: vec![(
            FeatureId::Vertex(7),
            NormalCone::Cone { axis: v(1, 0, 0), aperture: Frac { num: 1, den: 2 } },
        )],
    };
    let cones2 = ConeTable {
        entries: vec![(
            FeatureId::Vertex(9),
            NormalCone::Cone { axis: v(-1, 0, 0), aperture: Frac { num: 1, den: 2 } },
        )],
    };
    let _ = gen.update_with_closest_points(
        0,
        1,
        &v(1, 1, 1),
        &v(4, 1, 1),
        &v(1, 0, 0),
        pt1,
        pt2,
        &cones1,
        &cones2,
        &prediction(4, 1),
        &m1,
        &m1,
        &mut ids,
    );
    assert_eq!(gen.num_contacts(), 1);
    let tc = &gen.contact_manifold.contacts[0];
    assert_eq!(tc.fid1, FeatureId::Vertex(7));
    assert_eq!(tc.fid2, FeatureId::Vertex(9));
    // Depth -3: the vertices are three units apart along the normal.
    assert_eq!(tc.contact.depth.num * 1, -3 * tc.contact.depth.den);
}

#[test]
fn missing_cone_drops_the_contact_silently() {
    // A contact whose feature has no recorded normal cone is dropped, as
    // degenerate geometry is, without failing the update.
    let mut gen = ConvexPolyhedronConvexPolyhedronManifoldGenerator::new(Dimension::Three);
    let mut ids = IdAllocator::new();
    let m1 = Placement::identity();
    let empty = ConeTable { entries: Vec::new() };
    let _ = gen.update_with_closest_points(
        0,
        1,
        &v(0, 0, 5),
        &v(0, 0, 6),
        &v(0, 0, 1),
        square_face(5, 5, false, 0),
        square_face(4, 6, true, 10),
        &empty,
        &face_cones(10, v(0, 0, -1)),
        &prediction(2, 1),
        &m1,
        &m1,
        &mut ids,
    );
    assert_eq!(gen.num_contacts(), 0);
}

#[test]
fn depth_sign_selects_the_face_path() {
    // The query depth is what the caller uses to pick the extraction
    // tolerance: positive exactly when the points interpenetrate.
    let touching = closest_points_depth(&v(0, 0, 5), &v(0, 0, 4), &v(0, 0, 1));
    assert!(touching.num > 0);
    let apart = closest_points_depth(&v(0, 0, 5), &v(0, 0, 6), &v(0, 0, 1));
    assert!(apart.num < 0);
}

#[test]
fn placement_carries_contacts_to_world_space() {
    // A translation by (100, 0, 0) on the first shape's frame moves every
    // stored point by the same amount and leaves depths untouched.
    let mut gen = ConvexPolyhedronConvexPolyhedronManifoldGenerator::new(Dimension::Three);
    let mut ids = IdAllocator::new();
    let m1 = Placement {
        r0: v(1, 0, 0),
        r1: v(0, 1, 0),
        r2: v(0, 0, 1),
        div: 1,
        t: v(100, 0, 0),
    };
    let m12_inv = Placement::identity();
    let _ = gen.update_with_closest_points(
        0,
        1,
        &v(0, 0, 5),
        &v(0, 0, 6),
        &v(0, 0, 1),
        square_face(5, 5, false, 0),
        square_face(4, 6, true, 10),
        &face_cones(0, v(0, 0, 1)),
        &face_cones(10, v(0, 0, -1)),
        &prediction(2, 1),
        &m1,
        &m12_inv,
        &mut ids,
    );
    assert_eq!(gen.num_contacts(), 4);
    for tc in &gen.contact_manifold.contacts {
        let w = &tc.contact.world2;
        // Each of B's corner points sits at |x| = 4 before the translation.
        let shifted = w.nx - 100 * w.den;
        assert!(shifted == 4 * w.den || shifted == -4 * w.den);
        assert_eq!(tc.contact.depth.num * 1, -1 * tc.contact.depth.den);
    }
}

#[test]
fn contact_on_a_missing_edge_is_dropped() {
    // The first feature claims an edge as its overall id but records no
    // edge: the contact tagged with it has no direction to build a line
    // correspondence from, so it is dropped; the other contact survives.
    let mut gen = ConvexPolyhedronConvexPolyhedronManifoldGenerator::new(Dimension::Two);
    let mut ids = IdAllocator::new();
    let m1 = Placement::identity();
    let f1 = ConvexPolygonalFeature {
        vertices: vec![v(5, -5, 0), v(5, 5, 0)],
        vertices_id: vec![FeatureId::Vertex(0), FeatureId::Vertex(1)],
        edges_id: vec![],
        feature_id: FeatureId::Edge(0),
        normal: None,
    };
    let f2 = segment_feature(v(6, 8, 0), v(6, -2, 0), 10);
    let _ = gen.update_with_closest_points(
        0,
        1,
        &v(5, 0, 0),
        &v(6, 0, 0),
        &v(1, 0, 0),
        f1,
        f2,
        &edge_cones(0, v(1, 0, 0)),
        &edge_cones(10, v(-1, 0, 0)),
        &prediction(2, 1),
        &m1,
        &m1,
        &mut ids,
    );
    assert_eq!(gen.num_contacts(), 1);
    assert_eq!(gen.contact_manifold.contacts[0].fid1, FeatureId::Vertex(1));
}

#[test]
fn inverse_placement_localizes_the_second_shape() {
    // With the second shape's frame six units to the left, the stored
    // kinematic point of the second side sits on its own local edge x == 0.
    let mut gen = ConvexPolyhedronConvexPolyhedronManifoldGenerator::new(Dimension::Two);
    let mut ids = IdAllocator::new();
    let m1 = Placement::identity();
    let m12_inv = Placement {
        r0: v(1, 0, 0),
        r1: v(0, 1, 0),
        r2: v(0, 0, 1),
        div: 1,
        t: v(-6, 0, 0),
    };
    let _ = gen.update_with_closest_points(
        0,
        1,
        &v(5, 0, 0),
        &v(6, 0, 0),
        &v(1, 0, 0),
        segment_feature(v(5, -5, 0), v(5, 5, 0), 0),
        segment_feature(v(6, 8, 0), v(6, -2, 0), 10),
        &edge_cones(0, v(1, 0, 0)),
        &edge_cones(10, v(-1, 0, 0)),
        &prediction(2, 1),
        &m1,
        &m12_inv,
        &mut ids,
    );
    assert_eq!(gen.num_contacts(), 2);
    for tc in &gen.contact_manifold.contacts {
        let local = match &tc.kinematic.side2 {
            SideKinematic::Plane { local, .. } => local,
            SideKinematic::Line { local, .. } => local,
            SideKinematic::Point { local, .. } => local,
        };
        assert_eq!(local.nx, 0);
    }
}
