//! Fixed-point scalar and vector arithmetic.

use rigid2d::fxp;
use rigid2d::vec2::Vector2;

#[test]
fn scalar_products_truncate_toward_zero() {
    assert_eq!(fxp::fp_mul(1500, 2000), 3000);
    assert_eq!(fxp::fp_mul(-1500, 2000), -3000);
    assert_eq!(fxp::fp_mul(999, 1), 0);
    assert_eq!(fxp::fp_mul(-999, 1), 0);
    assert_eq!(fxp::fp_div(1000, 3000), 333);
    assert_eq!(fxp::fp_div(-1000, 3000), -333);
    assert_eq!(fxp::fp_div(5, 0), 0);
}

#[test]
fn scalar_products_saturate() {
    assert_eq!(fxp::fp_mul(i64::MAX, 2000), i64::MAX);
    assert_eq!(fxp::fp_mul(i64::MAX, -2000), i64::MIN);
    assert_eq!(fxp::fp_add(i64::MAX, 1), i64::MAX);
    assert_eq!(fxp::fp_sub(i64::MIN, 1), i64::MIN);
    assert_eq!(fxp::fp_neg(i64::MIN), i64::MAX);
}

#[test]
fn hypot_of_scaled_triangle() {
    assert_eq!(fxp::fp_hypot(3000, 4000), 5000);
    assert_eq!(fxp::fp_hypot(0, 0), 0);
    assert_eq!(fxp::fp_hypot(-3000, 4000), 5000);
}

#[test]
fn almost_eq_threshold() {
    assert!(fxp::almost_eq(100, 109));
    assert!(!fxp::almost_eq(100, 110));
}

#[test]
fn vector_componentwise_ops() {
    let a = Vector2 { x: 1000, y: 2000 };
    let b = Vector2 { x: 300, y: -500 };
    assert_eq!(a.add(b), Vector2 { x: 1300, y: 1500 });
    assert_eq!(a.sub(b), Vector2 { x: 700, y: 2500 });
    assert_eq!(a.scale(500), Vector2 { x: 500, y: 1000 });
    assert_eq!(a.perp(), Vector2 { x: -2000, y: 1000 });
    assert_eq!(Vector2::from(7), Vector2 { x: 7, y: 7 });
    assert_eq!(Vector2 { x: 2500, y: -2500 }.disp(), Vector2 { x: 2, y: -2 });
}

#[test]
fn dot_cross_mag_norm() {
    let a = Vector2 { x: 3000, y: 4000 };
    assert_eq!(Vector2::dot(a, a), 25000);
    assert_eq!(a.mag(), 5000);
    assert_eq!(a.norm(), Vector2 { x: 600, y: 800 });
    assert_eq!(Vector2 { x: 0, y: 0 }.norm(), Vector2 { x: 0, y: 0 });
    let x = Vector2 { x: 1000, y: 0 };
    let y = Vector2 { x: 0, y: 1000 };
    assert_eq!(Vector2::cross(x, y), 1000);
    assert_eq!(Vector2::cross(y, x), -1000);
    assert_eq!(Vector2::dot(x, y), 0);
}

#[test]
fn projection_onto_axis() {
    let v = Vector2 { x: 1000, y: 1000 };
    let onto = Vector2 { x: 2000, y: 0 };
    assert_eq!(Vector2::project(v, onto), Vector2 { x: 1000, y: 0 });
}

#[test]
fn point_segment_distance() {
    let p = Vector2 { x: 1000, y: 1000 };
    let l1 = Vector2 { x: 0, y: 0 };
    let l2 = Vector2 { x: 2000, y: 0 };
    let (d, out) = Vector2::p_dist(p, l1, l2);
    assert_eq!(out, Vector2 { x: 1000, y: 0 });
    assert_eq!(d, 1000);

    let far_left = Vector2 { x: -500, y: 0 };
    let (d2, out2) = Vector2::p_dist(far_left, l1, l2);
    assert_eq!(out2, l1);
    assert_eq!(d2, 250);
}

#[test]
fn componentwise_products_and_quotients() {
    let a = Vector2 { x: 2000, y: 3000 };
    let b = Vector2 { x: 500, y: 2000 };
    assert_eq!(a.mul(b), Vector2 { x: 1000, y: 6000 });
    assert_eq!(a.div(b), Vector2 { x: 4000, y: 1500 });
    assert_eq!(a.div(Vector2 { x: 0, y: 2000 }), Vector2 { x: 0, y: 1500 });
}

#[test]
fn scalar_vector_cross_products() {
    let v = Vector2 { x: 2000, y: 3000 };
    assert_eq!(Vector2::cross_vc(v, 1000), Vector2 { x: 3000, y: -2000 });
    assert_eq!(Vector2::cross_cv(1000, v), Vector2 { x: -3000, y: 2000 });
}

#[test]
fn point_segment_distance_clamps_to_far_end() {
    let l1 = Vector2 { x: 0, y: 0 };
    let l2 = Vector2 { x: 2000, y: 0 };
    let (d, out) = Vector2::p_dist(Vector2 { x: 2500, y: 0 }, l1, l2);
    assert_eq!(out, l2);
    assert_eq!(d, 250);
}
