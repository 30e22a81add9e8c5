//! Impulse resolution, friction and positional correction.

use rigid2d::body::{Body, BodyForm};
use rigid2d::detector::{CollisionCandidatePair, CollisionResult};
use rigid2d::resolver::CollisionResolver;
use rigid2d::vec2::Vector2;

fn unit_square(x: i64, y: i64) -> Body {
    Body::new(
        BodyForm::Polygon,
        Vector2 { x, y },
        None,
        4,
        Some(1000),
        Some(1000),
        1000,
        700,
        Vec::new(),
    )
    .unwrap()
}

fn frictionless(mut b: Body) -> Body {
    b.static_friction = 0;
    b.dynamic_friction = 0;
    b
}

fn head_on_manifold(overlap: i64) -> CollisionResult {
    CollisionResult {
        bodies: CollisionCandidatePair { a: 0, b: 1 },
        normal: Vector2 { x: 1000, y: 0 },
        overlap,
        contacts: vec![Vector2 { x: 950, y: 500 }],
    }
}

#[test]
fn elastic_head_on_collision_exchanges_velocities() {
    // Equal masses, restitution one, zero friction: the elastic collision
    // law, exact in fixed point for these values.
    let mut a = frictionless(unit_square(0, 0));
    a.restitution = 1000;
    a.velocity = Vector2 { x: 2000, y: 0 };
    let mut b = frictionless(unit_square(900, 0));
    b.restitution = 1000;

    let mut bodies = vec![a, b];
    CollisionResolver::new().resolve(&mut bodies, &vec![head_on_manifold(50)]);
    assert_eq!(bodies[0].velocity, Vector2 { x: 0, y: 0 });
    assert_eq!(bodies[1].velocity, Vector2 { x: 2000, y: 0 });
    assert_eq!(bodies[0].angular_velocity, 0);
    assert_eq!(bodies[1].angular_velocity, 0);
}

#[test]
fn penetration_within_slop_moves_nothing() {
    // Penetration at the slop threshold: zero positional correction.
    let mut a = frictionless(unit_square(0, 0));
    a.velocity = Vector2 { x: 2000, y: 0 };
    let b = frictionless(unit_square(900, 0));
    let mut bodies = vec![a, b];
    CollisionResolver::new().resolve(&mut bodies, &vec![head_on_manifold(50)]);
    assert_eq!(bodies[0].position, Vector2 { x: 0, y: 0 });
    assert_eq!(bodies[1].position, Vector2 { x: 900, y: 0 });
}

#[test]
fn penetration_past_slop_is_corrected() {
    // corrected = overlap - slop = 1.0; correction = 1.0 * 0.5 * 0.4,
    // scaled by each unit inverse mass.
    let a = frictionless(unit_square(0, 0));
    let b = frictionless(unit_square(900, 0));
    let mut bodies = vec![a, b];
    CollisionResolver::new().resolve(&mut bodies, &vec![head_on_manifold(1050)]);
    assert_eq!(bodies[0].position, Vector2 { x: -200, y: 0 });
    assert_eq!(bodies[1].position, Vector2 { x: 1100, y: 0 });
}

#[test]
fn frozen_body_absorbs_nothing() {
    // The frozen wall keeps position and velocity through any resolution.
    let mut a = frictionless(unit_square(0, 0));
    a.velocity = Vector2 { x: 2000, y: 0 };
    let b = frictionless(unit_square(900, 0)).set_frozen(true);
    let mut bodies = vec![a, b];
    CollisionResolver::new().resolve(&mut bodies, &vec![head_on_manifold(1050)]);
    assert_eq!(bodies[1].position, Vector2 { x: 900, y: 0 });
    assert_eq!(bodies[1].velocity, Vector2 { x: 0, y: 0 });
    assert_eq!(bodies[1].angular_velocity, 0);
    // The moving body still corrects (with the doubled share) and bounces.
    assert!(bodies[0].position.x < 0);
    assert!(bodies[0].velocity.x < 2000);
}

#[test]
fn resolution_is_order_canonical() {
    // The same manifold with the pair bodies exchanged resolves the same
    // way: the solver orders the operands along the normal itself.
    let mut a = frictionless(unit_square(0, 0));
    a.restitution = 1000;
    a.velocity = Vector2 { x: 2000, y: 0 };
    let mut b = frictionless(unit_square(900, 0));
    b.restitution = 1000;

    let mut bodies = vec![b, a];
    let manifold = CollisionResult {
        bodies: CollisionCandidatePair { a: 0, b: 1 },
        normal: Vector2 { x: 1000, y: 0 },
        overlap: 50,
        contacts: vec![Vector2 { x: 950, y: 500 }],
    };
    CollisionResolver::new().resolve(&mut bodies, &vec![manifold]);
    assert_eq!(bodies[1].velocity, Vector2 { x: 0, y: 0 });
    assert_eq!(bodies[0].velocity, Vector2 { x: 2000, y: 0 });
}
