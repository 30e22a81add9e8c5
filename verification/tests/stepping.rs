//! Whole engine steps and the body registry.

use rigid2d::body::{Body, BodyForm};
use rigid2d::engine::Engine;
use rigid2d::ssm::SystemStateManager;
use rigid2d::vec2::Vector2;

fn unit_square(x: i64, y: i64) -> Body {
    Body::new(
        BodyForm::Polygon,
        Vector2 { x, y },
        None,
        4,
        Some(1000),
        Some(1000),
        1000,
        700,
        Vec::new(),
    )
    .unwrap()
}

#[test]
fn step_applies_gravity_then_integrates() {
    let engine = Engine::new(Vector2 { x: 20000, y: 20000 });
    let mut bodies = vec![unit_square(5000, 0)];
    // dt = 0.016: velocity.y becomes 9.81, position.y advances 0.156.
    let shared = engine.step(&mut bodies, 16);
    assert_eq!(bodies[0].velocity, Vector2 { x: 0, y: 9810 });
    assert_eq!(bodies[0].position, Vector2 { x: 5000, y: 156 });
    assert_eq!(shared.broad_phase_pairs.len(), 0);
    assert_eq!(shared.narrow_phase_pairs.len(), 0);
}

#[test]
fn step_leaves_frozen_bodies_alone() {
    let engine = Engine::new(Vector2 { x: 20000, y: 20000 });
    let floor = unit_square(5000, 5000).set_frozen(true);
    let mut falling = unit_square(5000, 4100);
    falling.velocity = Vector2 { x: 0, y: 1000 };
    let mut bodies = vec![floor, falling];
    let _shared = engine.step(&mut bodies, 16);
    assert_eq!(bodies[0].position, Vector2 { x: 5000, y: 5000 });
    assert_eq!(bodies[0].velocity, Vector2 { x: 0, y: 0 });
}

#[test]
fn step_detects_and_resolves_contact() {
    let engine = Engine::new(Vector2 { x: 20000, y: 20000 });
    let floor = unit_square(5000, 5000).set_frozen(true);
    let mut falling = unit_square(5000, 4100);
    falling.velocity = Vector2 { x: 0, y: 1000 };
    let mut bodies = vec![floor, falling];
    let shared = engine.step(&mut bodies, 16);
    // After integration the falling body overlaps the floor.
    assert_eq!(shared.broad_phase_pairs.len(), 1);
    assert_eq!(shared.narrow_phase_pairs.len(), 1);
    // Resolution pushes the falling body back upward.
    assert!(bodies[1].velocity.y < 1000 + 9810);
}

#[test]
fn step_on_empty_world_is_a_no_op() {
    let engine = Engine::new(Vector2 { x: 20000, y: 20000 });
    let mut bodies: Vec<Body> = Vec::new();
    let shared = engine.step(&mut bodies, 16);
    assert_eq!(bodies.len(), 0);
    assert_eq!(shared.broad_phase_pairs.len(), 0);
    assert_eq!(shared.collision_grid.len(), 400);
}

#[test]
fn registry_deduplicates_equal_bodies() {
    let mut ssm = SystemStateManager::new();
    ssm.add_body(unit_square(0, 0));
    ssm.add_body(unit_square(0, 0));
    assert_eq!(ssm.bodies().len(), 1);
    ssm.add_body(unit_square(500, 0));
    assert_eq!(ssm.bodies().len(), 2);
}

#[test]
fn registry_adds_lists_in_order() {
    let mut ssm = SystemStateManager::new();
    ssm.add_bodies(vec![unit_square(0, 0), unit_square(500, 0), unit_square(0, 0)]);
    assert_eq!(ssm.bodies().len(), 2);
    assert_eq!(ssm.bodies()[0].position, Vector2 { x: 0, y: 0 });
    assert_eq!(ssm.bodies()[1].position, Vector2 { x: 500, y: 0 });
}
