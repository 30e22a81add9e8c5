//! Body construction, geometry and integration.

use rigid2d::body::{Body, BodyForm};
use rigid2d::vec2::{Vector2, Vertex};

fn unit_square(x: i64, y: i64) -> Body {
    Body::new(
        BodyForm::Polygon,
        Vector2 { x, y },
        None,
        4,
        Some(1000),
        Some(1000),
        1000,
        700,
        Vec::new(),
    )
    .unwrap()
}

#[test]
fn rect_body_fields() {
    let b = unit_square(2000, 3000);
    assert_eq!(b.sides, 4);
    assert_eq!(b.vertices.len(), 4);
    assert_eq!(b.vertices[2].to_vec2(), Vector2 { x: 1000, y: 1000 });
    assert_eq!(b.origin, Vector2 { x: 0, y: 0 });
    assert_eq!(b.rotation, Vector2 { x: 1000, y: 0 });
    // inertia = m * (w^2 + h^2) / 12 = 1.0 * 2.0 / 12, truncated
    assert_eq!(b.inertia, 166);
    assert!(!b.frozen);
    assert!(b.is_rect());
    assert_eq!(b.center(), Vector2 { x: 2500, y: 3500 });
}

#[test]
fn rect_body_rejects_degenerate_extents() {
    let r = Body::new(
        BodyForm::Polygon,
        Vector2 { x: 0, y: 0 },
        None,
        4,
        Some(0),
        Some(1000),
        1000,
        700,
        Vec::new(),
    );
    assert!(r.is_none());
    let r2 = Body::new(
        BodyForm::Polygon,
        Vector2 { x: 0, y: 0 },
        None,
        4,
        Some(1000),
        Some(1000),
        -1,
        700,
        Vec::new(),
    );
    assert!(r2.is_none());
    let r3 = Body::new(
        BodyForm::Polygon,
        Vector2 { x: 0, y: 0 },
        None,
        4,
        Some(1000),
        Some(1000),
        1000,
        1001,
        Vec::new(),
    );
    assert!(r3.is_none());
}

#[test]
fn polygon_body_takes_vertices() {
    let verts = vec![
        Vertex { id: 0, x: 1000, y: 0 },
        Vertex { id: 1, x: -500, y: 866 },
        Vertex { id: 2, x: -500, y: -866 },
    ];
    let b = Body::new(
        BodyForm::Polygon,
        Vector2 { x: 0, y: 0 },
        Some(1000),
        3,
        None,
        None,
        1000,
        700,
        verts,
    )
    .unwrap();
    assert_eq!(b.sides, 3);
    assert_eq!(b.origin, Vector2 { x: 1000, y: 1000 });
    assert_eq!(b.radius, Some(1000));
    assert!(!b.is_rect());
    // Equilateral triangle, side s: inertia = m * 3 s^2 / 36 = 0.25,
    // up to fixed-point truncation.
    assert_eq!(b.inertia, 249);
}

#[test]
fn polygon_inertia_scales_with_mass() {
    let verts = vec![
        Vertex { id: 0, x: 0, y: 0 },
        Vertex { id: 1, x: 2000, y: 0 },
        Vertex { id: 2, x: 2000, y: 2000 },
        Vertex { id: 3, x: 0, y: 2000 },
    ];
    // Square of side 2: inertia = m * (4 + 4) / 12 = 0.667 for unit mass,
    // up to fixed-point truncation, and doubles with the mass.
    let b1 = Body::new(
        BodyForm::Polygon,
        Vector2 { x: 0, y: 0 },
        Some(2000),
        4,
        None,
        None,
        1000,
        700,
        verts.clone(),
    )
    .unwrap();
    let b2 = Body::new(
        BodyForm::Polygon,
        Vector2 { x: 0, y: 0 },
        Some(2000),
        4,
        None,
        None,
        2000,
        700,
        verts,
    )
    .unwrap();
    assert_eq!(b1.inertia, 670);
    assert_eq!(b2.inertia, 1341);
}

#[test]
fn rect_body_rejects_a_radius() {
    // A rectangle's bounding box comes from its extents; a radius that
    // could contradict them is rejected.
    let r = Body::new(
        BodyForm::Polygon,
        Vector2 { x: 0, y: 0 },
        Some(500),
        4,
        Some(1000),
        Some(1000),
        1000,
        700,
        Vec::new(),
    );
    assert!(r.is_none());
}

#[test]
fn polygon_body_rejects_vertex_outside_radius() {
    let verts = vec![
        Vertex { id: 0, x: 1500, y: 0 },
        Vertex { id: 1, x: -500, y: 866 },
        Vertex { id: 2, x: -500, y: -866 },
    ];
    let r = Body::new(
        BodyForm::Polygon,
        Vector2 { x: 0, y: 0 },
        Some(1000),
        3,
        None,
        None,
        1000,
        700,
        verts,
    );
    assert!(r.is_none());
}

#[test]
fn polygon_body_rejects_zero_area() {
    // Collinear vertices: every edge has length, but the polygon has no
    // area.
    let verts = vec![
        Vertex { id: 0, x: 0, y: 0 },
        Vertex { id: 1, x: 500, y: 0 },
        Vertex { id: 2, x: 1000, y: 0 },
    ];
    let r = Body::new(
        BodyForm::Polygon,
        Vector2 { x: 0, y: 0 },
        Some(1000),
        3,
        None,
        None,
        1000,
        700,
        verts,
    );
    assert!(r.is_none());
}

#[test]
fn polygon_body_rejects_zero_length_edge() {
    let verts = vec![
        Vertex { id: 0, x: 1000, y: 0 },
        Vertex { id: 1, x: 1000, y: 0 },
        Vertex { id: 2, x: -500, y: -866 },
    ];
    let r = Body::new(
        BodyForm::Polygon,
        Vector2 { x: 0, y: 0 },
        Some(1000),
        3,
        None,
        None,
        1000,
        700,
        verts,
    );
    assert!(r.is_none());
    let r2 = Body::new(
        BodyForm::Polygon,
        Vector2 { x: 0, y: 0 },
        Some(1000),
        2,
        None,
        None,
        1000,
        700,
        vec![Vertex { id: 0, x: 0, y: 0 }, Vertex { id: 1, x: 1000, y: 0 }],
    );
    assert!(r2.is_none());
}

#[test]
fn globalise_rotates_and_translates() {
    // A quarter-turn rotation vector (cos, sin) = (0, 1).
    let b = unit_square(100, 200).set_rotation(Vector2 { x: 0, y: 1000 });
    let world = b.globalise(Vector2 { x: 1000, y: 0 });
    assert_eq!(world, Vector2 { x: 100, y: 1200 });
}

#[test]
fn aabb_spans_the_rect() {
    let b = unit_square(100, 200);
    let aabb = b.aabb();
    assert_eq!(aabb.points.len(), 4);
    assert_eq!(aabb.points[0], Vector2 { x: 100, y: 200 });
    assert_eq!(aabb.points[2], Vector2 { x: 1100, y: 1200 });
}

#[test]
fn axes_are_edge_normals() {
    let b = unit_square(0, 0);
    let axes = b.axes();
    assert_eq!(axes.len(), 4);
    assert_eq!(axes[0], Vector2 { x: -1000, y: 0 });
    assert_eq!(axes[1], Vector2 { x: 0, y: 1000 });
    assert_eq!(axes[2], Vector2 { x: 1000, y: 0 });
    assert_eq!(axes[3], Vector2 { x: 0, y: -1000 });
}

#[test]
fn inverse_mass_and_inertia() {
    let mut b = unit_square(0, 0);
    assert_eq!(b.inv_mass(), 1000);
    b.mass = 2000;
    assert_eq!(b.inv_mass(), 500);
    b.mass = 0;
    assert_eq!(b.inv_mass(), 0);
    let frozen = unit_square(0, 0).set_frozen(true);
    assert_eq!(frozen.inv_mass(), 0);
    assert_eq!(frozen.inv_inertia(), 0);
}

#[test]
fn update_integrates_semi_implicitly() {
    let mut b = unit_square(0, 0);
    b.velocity = Vector2 { x: 1000, y: 0 };
    b.force_buffer = Vector2 { x: 500, y: 0 };
    // dt = 0.5: velocity += force * inv_mass * dt; position += velocity * dt
    b.update(500);
    assert_eq!(b.velocity, Vector2 { x: 1250, y: 0 });
    assert_eq!(b.position, Vector2 { x: 625, y: 0 });
    assert_eq!(b.force_buffer, Vector2 { x: 0, y: 0 });
    assert_eq!(b.torque, 0);
}

#[test]
fn update_leaves_frozen_bodies_alone() {
    let mut b = unit_square(100, 100).set_frozen(true);
    b.velocity = Vector2 { x: 5000, y: 5000 };
    b.force_buffer = Vector2 { x: 900, y: 900 };
    let before_pos = b.position;
    let before_vel = b.velocity;
    b.update(1000);
    assert_eq!(b.position, before_pos);
    assert_eq!(b.velocity, before_vel);
    assert_eq!(b.force_buffer, Vector2 { x: 900, y: 900 });
}

#[test]
fn builder_setters() {
    let b = unit_square(0, 0)
        .set_collision_group(-1)
        .set_ignore_groups(vec![-1, 3]);
    assert_eq!(b.collision_group, -1);
    assert_eq!(b.ignore_groups, vec![-1, 3]);
}

#[test]
fn polygon_body_rejects_wrong_vertex_count() {
    let verts = vec![
        Vertex { id: 0, x: 1000, y: 0 },
        Vertex { id: 1, x: -500, y: 866 },
        Vertex { id: 2, x: -500, y: -866 },
    ];
    let r = Body::new(
        BodyForm::Polygon,
        Vector2 { x: 0, y: 0 },
        Some(1000),
        5,
        None,
        None,
        1000,
        700,
        verts,
    );
    assert!(r.is_none());
}
