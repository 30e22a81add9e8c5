//! Broad-phase and narrow-phase detection.

use rigid2d::body::{Body, BodyForm};
use rigid2d::detector::{sat_test, find_contacts, CollisionDetector, CollisionCandidatePair};
use rigid2d::vec2::Vector2;

fn unit_square(x: i64, y: i64) -> Body {
    Body::new(
        BodyForm::Polygon,
        Vector2 { x, y },
        None,
        4,
        Some(1000),
        Some(1000),
        1000,
        700,
        Vec::new(),
    )
    .unwrap()
}

fn detector() -> CollisionDetector {
    CollisionDetector::new(Vector2 { x: 20000, y: 20000 })
}

#[test]
fn separated_squares_do_not_collide() {
    // Two unit squares translated ten units apart along x: a separating
    // axis exists, so the narrow phase denies the collision.
    let a = unit_square(0, 0);
    let b = unit_square(10000, 0);
    assert!(sat_test(&a, &b).is_none());
}

#[test]
fn coincident_squares_penetrate_a_full_side() {
    // Identical overlapping axis-aligned unit squares: penetration depth
    // equals the side length and the normal is axis-aligned.
    let a = unit_square(0, 0);
    let b = unit_square(0, 0);
    let (normal, overlap) = sat_test(&a, &b).unwrap();
    assert_eq!(overlap, 1000);
    assert_eq!(normal, Vector2 { x: -1000, y: 0 });
}

#[test]
fn touching_squares_do_not_collide() {
    // Shared edge only: projections touch without overlap.
    let a = unit_square(0, 0);
    let b = unit_square(1000, 0);
    assert!(sat_test(&a, &b).is_none());
}

#[test]
fn overlapping_squares_collide_on_least_axis() {
    let a = unit_square(0, 0);
    let b = unit_square(900, 0);
    let (_normal, overlap) = sat_test(&a, &b).unwrap();
    assert_eq!(overlap, 100);
}

#[test]
fn contacts_lie_on_the_shared_boundary() {
    let a = unit_square(0, 0);
    let b = unit_square(900, 0);
    let contacts = find_contacts(&a, &b);
    assert!(contacts.len() >= 1 && contacts.len() <= 2);
    assert_eq!(contacts, vec![Vector2 { x: 1000, y: 1000 }, Vector2 { x: 900, y: 1000 }]);
}

#[test]
fn broad_phase_pairs_overlapping_bodies_once() {
    let bodies = vec![unit_square(0, 0), unit_square(500, 0), unit_square(15000, 15000)];
    let (pairs, grid, oob) = detector().broad_phase(&bodies);
    assert_eq!(pairs.len(), 1);
    assert_eq!(pairs[0], CollisionCandidatePair { a: 0, b: 1 });
    assert_eq!(grid.len(), 400);
    assert_eq!(oob.len(), 0);
}

#[test]
fn broad_phase_emits_nothing_for_distant_bodies() {
    let bodies = vec![unit_square(0, 0), unit_square(9000, 9000)];
    let (pairs, _grid, _oob) = detector().broad_phase(&bodies);
    assert_eq!(pairs.len(), 0);
}

#[test]
fn mutually_ignoring_groups_never_pair() {
    // Identical bounding boxes, but the groups ignore each other.
    let a = unit_square(0, 0).set_collision_group(7).set_ignore_groups(vec![7]);
    let b = unit_square(0, 0).set_collision_group(7).set_ignore_groups(vec![7]);
    let bodies = vec![a, b];
    let (pairs, _grid, _oob) = detector().broad_phase(&bodies);
    assert_eq!(pairs.len(), 0);
}

#[test]
fn out_of_bounds_bodies_pair_exhaustively() {
    // Both bodies leave the grid; their boxes do not even overlap, yet
    // the out-of-bounds set is checked exhaustively.
    let bodies = vec![unit_square(-5000, 0), unit_square(-3000, 0)];
    let (pairs, _grid, oob) = detector().broad_phase(&bodies);
    assert_eq!(oob, vec![0, 1]);
    assert_eq!(pairs.len(), 1);
    assert_eq!(pairs[0], CollisionCandidatePair { a: 0, b: 1 });
}

#[test]
fn evaluate_publishes_all_stages() {
    let bodies = vec![unit_square(0, 0), unit_square(900, 0)];
    let shared = detector().evaluate(&bodies);
    assert_eq!(shared.window_size, Vector2 { x: 20000, y: 20000 });
    assert_eq!(shared.collision_grid.len(), 400);
    assert_eq!(shared.broad_phase_pairs.len(), 1);
    assert_eq!(shared.narrow_phase_pairs.len(), 1);
    let manifold = &shared.narrow_phase_pairs[0];
    assert_eq!(manifold.bodies, CollisionCandidatePair { a: 0, b: 1 });
    assert_eq!(manifold.overlap, 100);
}

#[test]
fn evaluate_denies_separated_candidates() {
    // Same cell, no overlap: a candidate pair that the narrow phase denies.
    let bodies = vec![unit_square(0, 0), unit_square(0, 1200)];
    let shared = detector().evaluate(&bodies);
    assert_eq!(shared.broad_phase_pairs.len(), 1);
    assert_eq!(shared.narrow_phase_pairs.len(), 0);
}

#[test]
fn evaluate_on_empty_world() {
    let bodies: Vec<Body> = Vec::new();
    let shared = detector().evaluate(&bodies);
    assert_eq!(shared.broad_phase_pairs.len(), 0);
    assert_eq!(shared.narrow_phase_pairs.len(), 0);
    assert_eq!(shared.collision_grid.len(), 400);
}
