use convex_manifold::contact::{Contact, ContactKinematic, SideKinematic};
use convex_manifold::feature::{FeatureId, NormalCone};
use convex_manifold::geometry::{FracVect, Vect};
use convex_manifold::ids::IdAllocator;
use convex_manifold::manifold::ContactManifold;
use convex_manifold::rational::Frac;

fn v(x: i64, y: i64, z: i64) -> Vect {
    Vect { x, y, z }
}

fn point(x: i64, y: i64, z: i64) -> FracVect {
    FracVect { nx: x as i128, ny: y as i128, nz: z as i128, den: 1 }
}

fn contact_at(x: i64) -> Contact {
    Contact {
        world1: point(x, 0, 0),
        world2: point(x + 1, 0, 0),
        normal: v(1, 0, 0),
        depth: Frac { num: -1, den: 1 },
    }
}

fn kinematic(fid1: usize, fid2: usize) -> ContactKinematic {
    ContactKinematic {
        side1: SideKinematic::Point {
            fid: FeatureId::Vertex(fid1),
            local: point(0, 0, 0),
            cone: NormalCone::Cone { axis: v(1, 0, 0), aperture: Frac { num: 1, den: 2 } },
        },
        side2: SideKinematic::Point {
            fid: FeatureId::Vertex(fid2),
            local: point(0, 0, 0),
            cone: NormalCone::Cone { axis: v(-1, 0, 0), aperture: Frac { num: 1, den: 2 } },
        },
    }
}

#[test]
fn allocator_hands_out_fresh_ids_then_recycles() {
    let mut ids = IdAllocator::new();
    let a = ids.allocate();
    let b = ids.allocate();
    assert_ne!(a, b);
    ids.free(a);
    let c = ids.allocate();
    assert_eq!(c, a);
    let d = ids.allocate();
    assert_ne!(d, b);
    assert_ne!(d, c);
}

#[test]
fn push_reuses_the_cached_id_of_an_unchanged_feature_pair() {
    let mut ids = IdAllocator::new();
    let mut m = ContactManifold::new();
    let first = m.push(
        contact_at(0),
        kinematic(1, 2),
        FeatureId::Vertex(1),
        FeatureId::Vertex(2),
        &mut ids,
    );
    let second = m.push(
        contact_at(5),
        kinematic(3, 4),
        FeatureId::Vertex(3),
        FeatureId::Vertex(4),
        &mut ids,
    );
    assert_ne!(first, second);
    m.save_cache_and_clear(&mut ids);
    assert_eq!(m.len(), 0);
    // The same feature pairs, pushed again after the clear, keep their ids
    // even in another order.
    let second_again = m.push(
        contact_at(6),
        kinematic(3, 4),
        FeatureId::Vertex(3),
        FeatureId::Vertex(4),
        &mut ids,
    );
    let first_again = m.push(
        contact_at(1),
        kinematic(1, 2),
        FeatureId::Vertex(1),
        FeatureId::Vertex(2),
        &mut ids,
    );
    assert_eq!(first_again, first);
    assert_eq!(second_again, second);
}

#[test]
fn vanished_pairs_release_their_ids_at_the_next_clear() {
    let mut ids = IdAllocator::new();
    let mut m = ContactManifold::new();
    let gone = m.push(
        contact_at(0),
        kinematic(1, 2),
        FeatureId::Vertex(1),
        FeatureId::Vertex(2),
        &mut ids,
    );
    m.save_cache_and_clear(&mut ids);
    // The old pair does not come back; its id is freed at the next clear
    // and recycled for whoever asks first.
    m.save_cache_and_clear(&mut ids);
    let recycled = m.push(
        contact_at(2),
        kinematic(5, 6),
        FeatureId::Vertex(5),
        FeatureId::Vertex(6),
        &mut ids,
    );
    assert_eq!(recycled, gone);
}

#[test]
fn a_new_pair_gets_a_new_id_while_old_pairs_hold_theirs() {
    let mut ids = IdAllocator::new();
    let mut m = ContactManifold::new();
    let kept = m.push(
        contact_at(0),
        kinematic(1, 2),
        FeatureId::Vertex(1),
        FeatureId::Vertex(2),
        &mut ids,
    );
    m.save_cache_and_clear(&mut ids);
    let kept_again = m.push(
        contact_at(0),
        kinematic(1, 2),
        FeatureId::Vertex(1),
        FeatureId::Vertex(2),
        &mut ids,
    );
    let fresh = m.push(
        contact_at(3),
        kinematic(7, 8),
        FeatureId::Vertex(7),
        FeatureId::Vertex(8),
        &mut ids,
    );
    assert_eq!(kept_again, kept);
    assert_ne!(fresh, kept);
}
