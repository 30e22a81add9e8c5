//! Impulse-based collision resolution: positional correction, one pass of
//! sequential normal impulses, and Coulomb friction with a static/dynamic
//! clamp.

use vstd::prelude::*;
use crate::fxp::{SCALE, sat64, tdiv, mul_fp, div_fp, add_sat, sub_sat, hypot_fp, sqrt_floor};
use crate::fxp;
use crate::vec2::{Vector2, add_v2, sub_v2, scale_v2, perp_v2, dot_fp, cross_fp, norm_v2};
use crate::body::{Body, center_spec, globalise_spec, inv_mass_spec, inv_inertia_spec};
use crate::detector::CollisionResult;

verus! {

/// Fraction of the remaining penetration corrected positionally per pass.
pub const CORRECTION_PERCENTAGE: i64 = 400;

/// Penetration tolerated without positional correction.
pub const SLOP: i64 = 50;

/// Correction factor when both bodies move: each takes half.
pub const HALF_SHARE: i64 = 500;

/// The smaller restitution of the two bodies.
pub open spec fn min_restitution(b1: Body, b2: Body) -> int {
    if b1.restitution <= b2.restitution {
        b1.restitution as int
    } else {
        b2.restitution as int
    }
}

/// Penetration past the slop tolerance, or zero.
pub open spec fn corrected_overlap(overlap: int) -> int {
    let d = sub_sat(overlap, SLOP as int);
    if d > 0 {
        d
    } else {
        0
    }
}

/// The positional-correction vector: the normal scaled by the corrected
/// overlap, the share factor (whole if either body is frozen, else half),
/// the correction percentage, and divided over the contact count.
pub open spec fn correction_vec(b1: Body, b2: Body, n: Vector2, overlap: int, points: int) -> Vector2 {
    let f = if b1.frozen || b2.frozen {
        SCALE as int
    } else {
        HALF_SHARE as int
    };
    let c = sat64(tdiv(mul_fp(mul_fp(corrected_overlap(overlap), f), CORRECTION_PERCENTAGE as int), points));
    scale_v2(n, c)
}

/// Both bodies after positional correction, each displaced along the
/// normal in proportion to its inverse mass.
pub open spec fn correct_pair(b1: Body, b2: Body, n: Vector2, overlap: int, points: int) -> (
    Body,
    Body,
) {
    let corr = correction_vec(b1, b2, n, overlap, points);
    (
        Body { position: sub_v2(b1.position, scale_v2(corr, inv_mass_spec(b1))), ..b1 },
        Body { position: add_v2(b2.position, scale_v2(corr, inv_mass_spec(b2))), ..b2 },
    )
}

/// The contact arm of a body: the contact point relative to its center.
pub open spec fn arm(b: Body, contact: Vector2) -> Vector2 {
    sub_v2(contact, center_spec(b))
}

/// The normal impulse magnitude for one contact, computed from the
/// corrected state: the closing normal velocity scaled by `-(1 + e)` over
/// the effective mass, divided over the contact count.
pub open spec fn impulse_j(cb1: Body, cb2: Body, n: Vector2, e: int, contact: Vector2, points: int) -> int {
    let r1p = perp_v2(arm(cb1, contact));
    let r2p = perp_v2(arm(cb2, contact));
    let rel = sub_v2(
        add_v2(cb2.velocity, scale_v2(r2p, cb2.angular_velocity as int)),
        add_v2(cb1.velocity, scale_v2(r1p, cb1.angular_velocity as int)),
    );
    let vn = dot_fp(rel, n);
    let r1pn = dot_fp(r1p, n);
    let r2pn = dot_fp(r2p, n);
    let denom = add_sat(
        add_sat(
            add_sat(inv_mass_spec(cb1), inv_mass_spec(cb2)),
            mul_fp(mul_fp(r1pn, r1pn), inv_inertia_spec(cb1)),
        ),
        mul_fp(mul_fp(r2pn, r2pn), inv_inertia_spec(cb2)),
    );
    let ne = sat64(-add_sat(e, SCALE as int));
    sat64(tdiv(div_fp(mul_fp(vn, ne), denom), points))
}

/// Both bodies after the first `i` normal impulses: linear impulse scaled
/// by inverse mass, angular impulse by the arm's cross with the impulse
/// and inverse inertia.  The impulses are all computed from the fixed
/// corrected state `(cb1, cb2)`.
pub open spec fn normal_apply(
    cb1: Body,
    cb2: Body,
    b1: Body,
    b2: Body,
    n: Vector2,
    e: int,
    contacts: Seq<Vector2>,
    points: int,
    i: int,
) -> (Body, Body)
    decreases i,
{
    if i <= 0 {
        (b1, b2)
    } else {
        let (a1, a2) = normal_apply(cb1, cb2, b1, b2, n, e, contacts, points, i - 1);
        let j = impulse_j(cb1, cb2, n, e, contacts[i - 1], points);
        let imp = scale_v2(n, j);
        let r1 = arm(cb1, contacts[i - 1]);
        let r2 = arm(cb2, contacts[i - 1]);
        (
            Body {
                velocity: sub_v2(a1.velocity, scale_v2(imp, inv_mass_spec(cb1))),
                angular_velocity: sub_sat(
                    a1.angular_velocity as int,
                    mul_fp(cross_fp(r1, imp), inv_inertia_spec(cb1)),
                ) as i64,
                ..a1
            },
            Body {
                velocity: add_v2(a2.velocity, scale_v2(imp, inv_mass_spec(cb2))),
                angular_velocity: add_sat(
                    a2.angular_velocity as int,
                    mul_fp(cross_fp(r2, imp), inv_inertia_spec(cb2)),
                ) as i64,
                ..a2
            },
        )
    }
}

/// The friction impulse for one contact: computed against the tangential
/// relative velocity of the post-normal-impulse state `(nb1, nb2)`, with
/// the arms of the corrected state, clamped by the combined static and
/// dynamic coefficients (`sqrt(c1^2 + c2^2)`).
pub open spec fn friction_impulse(
    cb1: Body,
    cb2: Body,
    nb1: Body,
    nb2: Body,
    n: Vector2,
    e: int,
    contact: Vector2,
    points: int,
) -> Vector2 {
    let r1p = perp_v2(arm(cb1, contact));
    let r2p = perp_v2(arm(cb2, contact));
    let rel = sub_v2(
        add_v2(nb2.velocity, scale_v2(r2p, nb2.angular_velocity as int)),
        add_v2(nb1.velocity, scale_v2(r1p, nb1.angular_velocity as int)),
    );
    let t = norm_v2(sub_v2(rel, scale_v2(n, dot_fp(rel, n))));
    let vt = dot_fp(rel, t);
    let r1pt = dot_fp(r1p, t);
    let r2pt = dot_fp(r2p, t);
    let denom = add_sat(
        add_sat(
            add_sat(inv_mass_spec(cb1), inv_mass_spec(cb2)),
            mul_fp(mul_fp(r1pt, r1pt), inv_inertia_spec(cb1)),
        ),
        mul_fp(mul_fp(r2pt, r2pt), inv_inertia_spec(cb2)),
    );
    let fj = sat64(tdiv(div_fp(sat64(-vt), denom), points));
    let j = impulse_j(cb1, cb2, n, e, contact, points);
    let ks = hypot_fp(cb1.static_friction as int, cb2.static_friction as int);
    let kd = hypot_fp(cb1.dynamic_friction as int, cb2.dynamic_friction as int);
    if sat64(vstd::math::abs(fj) as int) <= mul_fp(ks, j) {
        scale_v2(t, fj)
    } else {
        scale_v2(t, mul_fp(sat64(-j), kd))
    }
}

/// Both bodies after the first `i` friction impulses, all computed from
/// the fixed post-normal state `(nb1, nb2)`.
pub open spec fn friction_apply(
    cb1: Body,
    cb2: Body,
    nb1: Body,
    nb2: Body,
    b1: Body,
    b2: Body,
    n: Vector2,
    e: int,
    contacts: Seq<Vector2>,
    points: int,
    i: int,
) -> (Body, Body)
    decreases i,
{
    if i <= 0 {
        (b1, b2)
    } else {
        let (a1, a2) = friction_apply(cb1, cb2, nb1, nb2, b1, b2, n, e, contacts, points, i - 1);
        let imp = friction_impulse(cb1, cb2, nb1, nb2, n, e, contacts[i - 1], points);
        let r1 = arm(cb1, contacts[i - 1]);
        let r2 = arm(cb2, contacts[i - 1]);
        (
            Body {
                velocity: sub_v2(a1.velocity, scale_v2(imp, inv_mass_spec(cb1))),
                angular_velocity: sub_sat(
                    a1.angular_velocity as int,
                    mul_fp(cross_fp(r1, imp), inv_inertia_spec(cb1)),
                ) as i64,
                ..a1
            },
            Body {
                velocity: add_v2(a2.velocity, scale_v2(imp, inv_mass_spec(cb2))),
                angular_velocity: add_sat(
                    a2.angular_velocity as int,
                    mul_fp(cross_fp(r2, imp), inv_inertia_spec(cb2)),
                ) as i64,
                ..a2
            },
        )
    }
}

/// Resolution of an ordered pair: positional correction, the normal
/// impulses, then friction.
pub open spec fn resolve_ordered(b1: Body, b2: Body, n: Vector2, overlap: int, contacts: Seq<Vector2>) -> (
    Body,
    Body,
) {
    let points = contacts.len() as int;
    let e = min_restitution(b1, b2);
    let (cb1, cb2) = correct_pair(b1, b2, n, overlap, points);
    let (nb1, nb2) = normal_apply(cb1, cb2, cb1, cb2, n, e, contacts, points, points);
    friction_apply(cb1, cb2, nb1, nb2, nb1, nb2, n, e, contacts, points, points)
}

/// Whether the pair is handed to the solver in swapped order: the body
/// whose origin projects no lower along the normal becomes the second
/// operand.
pub open spec fn pair_swapped(b1: Body, b2: Body, n: Vector2) -> bool {
    dot_fp(globalise_spec(b1, Vector2 { x: 0, y: 0 }), n) >= dot_fp(
        globalise_spec(b2, Vector2 { x: 0, y: 0 }),
        n,
    )
}

/// Resolution of one manifold: the bodies are ordered canonically along
/// the normal, corrected, and given the normal and friction impulses.
pub open spec fn resolve_pair_spec(
    b1: Body,
    b2: Body,
    n: Vector2,
    overlap: int,
    contacts: Seq<Vector2>,
) -> (Body, Body) {
    if pair_swapped(b1, b2, n) {
        let (s2, s1) = resolve_ordered(b2, b1, n, overlap, contacts);
        (s1, s2)
    } else {
        resolve_ordered(b1, b2, n, overlap, contacts)
    }
}

/// Impulse application leaves every field but velocity and angular
/// velocity alone.
proof fn lemma_normal_apply_position(
    cb1: Body,
    cb2: Body,
    b1: Body,
    b2: Body,
    n: Vector2,
    e: int,
    contacts: Seq<Vector2>,
    points: int,
    i: int,
)
    ensures
        normal_apply(cb1, cb2, b1, b2, n, e, contacts, points, i).0.position == b1.position,
        normal_apply(cb1, cb2, b1, b2, n, e, contacts, points, i).1.position == b2.position,
    decreases i,
{
    if i > 0 {
        lemma_normal_apply_position(cb1, cb2, b1, b2, n, e, contacts, points, i - 1);
    }
}

/// Friction application leaves every field but velocity and angular
/// velocity alone.
proof fn lemma_friction_apply_position(
    cb1: Body,
    cb2: Body,
    nb1: Body,
    nb2: Body,
    b1: Body,
    b2: Body,
    n: Vector2,
    e: int,
    contacts: Seq<Vector2>,
    points: int,
    i: int,
)
    ensures
        friction_apply(cb1, cb2, nb1, nb2, b1, b2, n, e, contacts, points, i).0.position
            == b1.position,
        friction_apply(cb1, cb2, nb1, nb2, b1, b2, n, e, contacts, points, i).1.position
            == b2.position,
    decreases i,
{
    if i > 0 {
        lemma_friction_apply_position(cb1, cb2, nb1, nb2, b1, b2, n, e, contacts, points, i - 1);
    }
}

/// Scaling any vector by a zero factor gives the zero vector.
proof fn lemma_scale_zero(v: Vector2)
    ensures
        scale_v2(v, 0) == (Vector2 { x: 0, y: 0 }),
        forall|c: int| #[trigger] scale_v2(Vector2 { x: 0, y: 0 }, c) == (Vector2 { x: 0, y: 0 }),
        forall|w: Vector2| #[trigger] sub_v2(w, Vector2 { x: 0, y: 0 }) == w,
        forall|w: Vector2| #[trigger] add_v2(w, Vector2 { x: 0, y: 0 }) == w,
{
    assert forall|c: int|
        #[trigger] scale_v2(Vector2 { x: 0, y: 0 }, c) == (Vector2 { x: 0, y: 0 }) by {
        assert(0 * c == 0) by (nonlinear_arith);
        assert(mul_fp(0, c) == 0);
    }
    assert forall|w: Vector2| #[trigger] sub_v2(w, Vector2 { x: 0, y: 0 }) == w by {
        assert(sub_v2(w, Vector2 { x: 0, y: 0 }).x == w.x);
        assert(sub_v2(w, Vector2 { x: 0, y: 0 }).y == w.y);
    }
    assert forall|w: Vector2| #[trigger] add_v2(w, Vector2 { x: 0, y: 0 }) == w by {
        assert(add_v2(w, Vector2 { x: 0, y: 0 }).x == w.x);
        assert(add_v2(w, Vector2 { x: 0, y: 0 }).y == w.y);
    }
}

/// A frozen first operand passes through the impulse pass unchanged.
proof fn lemma_normal_apply_frozen1(
    cb1: Body,
    cb2: Body,
    b1: Body,
    b2: Body,
    n: Vector2,
    e: int,
    contacts: Seq<Vector2>,
    points: int,
    i: int,
)
    requires
        cb1.frozen,
    ensures
        normal_apply(cb1, cb2, b1, b2, n, e, contacts, points, i).0 == b1,
    decreases i,
{
    if i > 0 {
        lemma_normal_apply_frozen1(cb1, cb2, b1, b2, n, e, contacts, points, i - 1);
        let imp = scale_v2(n, impulse_j(cb1, cb2, n, e, contacts[i - 1], points));
        lemma_scale_zero(imp);
    }
}

/// A frozen second operand passes through the impulse pass unchanged.
proof fn lemma_normal_apply_frozen2(
    cb1: Body,
    cb2: Body,
    b1: Body,
    b2: Body,
    n: Vector2,
    e: int,
    contacts: Seq<Vector2>,
    points: int,
    i: int,
)
    requires
        cb2.frozen,
    ensures
        normal_apply(cb1, cb2, b1, b2, n, e, contacts, points, i).1 == b2,
    decreases i,
{
    if i > 0 {
        lemma_normal_apply_frozen2(cb1, cb2, b1, b2, n, e, contacts, points, i - 1);
        let imp = scale_v2(n, impulse_j(cb1, cb2, n, e, contacts[i - 1], points));
        lemma_scale_zero(imp);
    }
}

/// A frozen first operand passes through the friction pass unchanged.
proof fn lemma_friction_apply_frozen1(
    cb1: Body,
    cb2: Body,
    nb1: Body,
    nb2: Body,
    b1: Body,
    b2: Body,
    n: Vector2,
    e: int,
    contacts: Seq<Vector2>,
    points: int,
    i: int,
)
    requires
        cb1.frozen,
    ensures
        friction_apply(cb1, cb2, nb1, nb2, b1, b2, n, e, contacts, points, i).0 == b1,
    decreases i,
{
    if i > 0 {
        lemma_friction_apply_frozen1(cb1, cb2, nb1, nb2, b1, b2, n, e, contacts, points, i - 1);
        let imp = friction_impulse(cb1, cb2, nb1, nb2, n, e, contacts[i - 1], points);
        lemma_scale_zero(imp);
    }
}

/// A frozen second operand passes through the friction pass unchanged.
proof fn lemma_friction_apply_frozen2(
    cb1: Body,
    cb2: Body,
    nb1: Body,
    nb2: Body,
    b1: Body,
    b2: Body,
    n: Vector2,
    e: int,
    contacts: Seq<Vector2>,
    points: int,
    i: int,
)
    requires
        cb2.frozen,
    ensures
        friction_apply(cb1, cb2, nb1, nb2, b1, b2, n, e, contacts, points, i).1 == b2,
    decreases i,
{
    if i > 0 {
        lemma_friction_apply_frozen2(cb1, cb2, nb1, nb2, b1, b2, n, e, contacts, points, i - 1);
        let imp = friction_impulse(cb1, cb2, nb1, nb2, n, e, contacts[i - 1], points);
        lemma_scale_zero(imp);
    }
}

/// A frozen body comes out of resolution exactly as it went in: no
/// correction, no impulse, no change at all.
pub proof fn lemma_resolve_frozen(b1: Body, b2: Body, n: Vector2, overlap: int, contacts: Seq<Vector2>)
    ensures
        b1.frozen ==> resolve_pair_spec(b1, b2, n, overlap, contacts).0 == b1,
        b2.frozen ==> resolve_pair_spec(b1, b2, n, overlap, contacts).1 == b2,
{
    let points = contacts.len() as int;
    lemma_resolve_ordered_frozen(b1, b2, n, overlap, contacts);
    lemma_resolve_ordered_frozen(b2, b1, n, overlap, contacts);
}

/// Frozen operands pass through an ordered resolution unchanged.
proof fn lemma_resolve_ordered_frozen(b1: Body, b2: Body, n: Vector2, overlap: int, contacts: Seq<Vector2>)
    ensures
        b1.frozen ==> resolve_ordered(b1, b2, n, overlap, contacts).0 == b1,
        b2.frozen ==> resolve_ordered(b1, b2, n, overlap, contacts).1 == b2,
{
    let points = contacts.len() as int;
    let e = min_restitution(b1, b2);
    let corr = correction_vec(b1, b2, n, overlap, points);
    let (cb1, cb2) = correct_pair(b1, b2, n, overlap, points);
    let (nb1, nb2) = normal_apply(cb1, cb2, cb1, cb2, n, e, contacts, points, points);
    if b1.frozen {
        lemma_scale_zero(corr);
        assert(cb1 == b1);
        lemma_normal_apply_frozen1(cb1, cb2, cb1, cb2, n, e, contacts, points, points);
        lemma_friction_apply_frozen1(cb1, cb2, nb1, nb2, nb1, nb2, n, e, contacts, points, points);
    }
    if b2.frozen {
        lemma_scale_zero(corr);
        assert(cb2 == b2);
        lemma_normal_apply_frozen2(cb1, cb2, cb1, cb2, n, e, contacts, points, points);
        lemma_friction_apply_frozen2(cb1, cb2, nb1, nb2, nb1, nb2, n, e, contacts, points, points);
    }
}

/// Penetration within the slop tolerance produces no positional
/// correction: both bodies keep their position (velocities may change).
pub proof fn lemma_resolve_slop(b1: Body, b2: Body, n: Vector2, overlap: int, contacts: Seq<Vector2>)
    requires
        overlap <= SLOP as int,
        contacts.len() >= 1,
    ensures
        resolve_pair_spec(b1, b2, n, overlap, contacts).0.position == b1.position,
        resolve_pair_spec(b1, b2, n, overlap, contacts).1.position == b2.position,
{
    lemma_resolve_ordered_slop(b1, b2, n, overlap, contacts);
    lemma_resolve_ordered_slop(b2, b1, n, overlap, contacts);
}

/// Within slop, an ordered resolution keeps both positions.
proof fn lemma_resolve_ordered_slop(b1: Body, b2: Body, n: Vector2, overlap: int, contacts: Seq<Vector2>)
    requires
        overlap <= SLOP as int,
        contacts.len() >= 1,
    ensures
        resolve_ordered(b1, b2, n, overlap, contacts).0.position == b1.position,
        resolve_ordered(b1, b2, n, overlap, contacts).1.position == b2.position,
{
    let points = contacts.len() as int;
    let e = min_restitution(b1, b2);
    let corr = correction_vec(b1, b2, n, overlap, points);
    assert(corrected_overlap(overlap) == 0);
    assert(mul_fp(0, SCALE as int) == 0);
    assert(mul_fp(0, HALF_SHARE as int) == 0);
    assert(mul_fp(0, CORRECTION_PERCENTAGE as int) == 0);
    assert(tdiv(0, points) == 0);
    let c = sat64(tdiv(mul_fp(mul_fp(corrected_overlap(overlap), if b1.frozen || b2.frozen { SCALE as int } else { HALF_SHARE as int }), CORRECTION_PERCENTAGE as int), points));
    assert(c == 0);
    lemma_scale_zero(n);
    assert(corr == scale_v2(n, c));
    assert(corr == (Vector2 { x: 0, y: 0 }));
    let (cb1, cb2) = correct_pair(b1, b2, n, overlap, points);
    lemma_scale_zero(corr);
    lemma_scale_zero(n);
    assert(scale_v2(corr, inv_mass_spec(b1)) == (Vector2 { x: 0, y: 0 }));
    assert(scale_v2(corr, inv_mass_spec(b2)) == (Vector2 { x: 0, y: 0 }));
    assert(cb1.position == b1.position);
    assert(cb2.position == b2.position);
    let (nb1, nb2) = normal_apply(cb1, cb2, cb1, cb2, n, e, contacts, points, points);
    lemma_normal_apply_position(cb1, cb2, cb1, cb2, n, e, contacts, points, points);
    lemma_friction_apply_position(cb1, cb2, nb1, nb2, nb1, nb2, n, e, contacts, points, points);
}

/// Impulse application changes only velocity and angular velocity.
proof fn lemma_normal_apply_fields(
    cb1: Body,
    cb2: Body,
    b1: Body,
    b2: Body,
    n: Vector2,
    e: int,
    contacts: Seq<Vector2>,
    points: int,
    i: int,
)
    ensures
        ({
            let (r1, r2) = normal_apply(cb1, cb2, b1, b2, n, e, contacts, points, i);
            r1 == (Body { velocity: r1.velocity, angular_velocity: r1.angular_velocity, ..b1 })
                && r2 == (Body {
                velocity: r2.velocity,
                angular_velocity: r2.angular_velocity,
                ..b2
            })
        }),
    decreases i,
{
    if i > 0 {
        lemma_normal_apply_fields(cb1, cb2, b1, b2, n, e, contacts, points, i - 1);
    }
}

/// Friction application changes only velocity and angular velocity.
proof fn lemma_friction_apply_fields(
    cb1: Body,
    cb2: Body,
    nb1: Body,
    nb2: Body,
    b1: Body,
    b2: Body,
    n: Vector2,
    e: int,
    contacts: Seq<Vector2>,
    points: int,
    i: int,
)
    ensures
        ({
            let (r1, r2) = friction_apply(cb1, cb2, nb1, nb2, b1, b2, n, e, contacts, points, i);
            r1 == (Body { velocity: r1.velocity, angular_velocity: r1.angular_velocity, ..b1 })
                && r2 == (Body {
                velocity: r2.velocity,
                angular_velocity: r2.angular_velocity,
                ..b2
            })
        }),
    decreases i,
{
    if i > 0 {
        lemma_friction_apply_fields(cb1, cb2, nb1, nb2, b1, b2, n, e, contacts, points, i - 1);
    }
}

/// Resolution of an ordered pair, mirroring `resolve_ordered` phase by
/// phase.
fn resolve_ordered_exec(b1: Body, b2: Body, n: Vector2, overlap: i64, contacts: &Vec<Vector2>) -> (r: (
    Body,
    Body,
))
    requires
        1 <= contacts@.len() <= 2,
    ensures
        (r.0, r.1) == resolve_ordered(b1, b2, n, overlap as int, contacts@),
{
    let points_n: usize = contacts.len();
    let points: i64 = points_n as i64;
    let e: i64 = if b1.restitution <= b2.restitution {
        b1.restitution
    } else {
        b2.restitution
    };
    let im1: i64 = b1.inv_mass();
    let im2: i64 = b2.inv_mass();
    let ii1: i64 = b1.inv_inertia();
    let ii2: i64 = b2.inv_inertia();

    // Positional correction.
    let d: i64 = fxp::fp_sub(overlap, SLOP);
    let co: i64 = if d > 0 {
        d
    } else {
        0
    };
    let f: i64 = if b1.frozen || b2.frozen {
        SCALE
    } else {
        HALF_SHARE
    };
    let c: i64 = fxp::div_count(fxp::fp_mul(fxp::fp_mul(co, f), CORRECTION_PERCENTAGE), points);
    let corr: Vector2 = n.scale(c);
    let mut b1: Body = b1;
    let mut b2: Body = b2;
    let ghost ob1 = b1;
    let ghost ob2 = b2;
    b1.position = b1.position.sub(corr.scale(im1));
    b2.position = b2.position.add(corr.scale(im2));
    let ghost cb1 = b1;
    let ghost cb2 = b2;
    proof {
        assert((cb1, cb2) == correct_pair(ob1, ob2, n, overlap as int, points as int));
    }

    // Per-contact normal impulses, from the corrected state.
    let mut js: Vec<i64> = Vec::new();
    let mut r1s: Vec<Vector2> = Vec::new();
    let mut r2s: Vec<Vector2> = Vec::new();
    let mut i: usize = 0;
    while i < points_n
        invariant
            points_n == contacts@.len(),
            1 <= points_n <= 2,
            points == points_n as i64,
            b1 == cb1,
            b2 == cb2,
            e as int == min_restitution(ob1, ob2),
            ob1.restitution == b1.restitution,
            ob2.restitution == b2.restitution,
            im1 as int == inv_mass_spec(cb1),
            im2 as int == inv_mass_spec(cb2),
            ii1 as int == inv_inertia_spec(cb1),
            ii2 as int == inv_inertia_spec(cb2),
            0 <= i <= points_n,
            js@.len() == i as int,
            r1s@.len() == i as int,
            r2s@.len() == i as int,
            forall|t: int|
                0 <= t < i ==> #[trigger] js@[t] as int == impulse_j(
                    cb1,
                    cb2,
                    n,
                    e as int,
                    contacts@[t],
                    points as int,
                ),
            forall|t: int| 0 <= t < i ==> #[trigger] r1s@[t] == arm(cb1, contacts@[t]),
            forall|t: int| 0 <= t < i ==> #[trigger] r2s@[t] == arm(cb2, contacts@[t]),
        decreases points_n - i,
    {
        let point: Vector2 = contacts[i];
        let r1: Vector2 = point.sub(b1.center());
        let r2: Vector2 = point.sub(b2.center());
        let r1p: Vector2 = r1.perp();
        let r2p: Vector2 = r2.perp();
        let rel: Vector2 = b2.velocity.add(r2p.scale(b2.angular_velocity)).sub(
            b1.velocity.add(r1p.scale(b1.angular_velocity)),
        );
        let vn: i64 = Vector2::dot(rel, n);
        let r1pn: i64 = Vector2::dot(r1p, n);
        let r2pn: i64 = Vector2::dot(r2p, n);
        let denom: i64 = fxp::fp_add(
            fxp::fp_add(fxp::fp_add(im1, im2), fxp::fp_mul(fxp::fp_mul(r1pn, r1pn), ii1)),
            fxp::fp_mul(fxp::fp_mul(r2pn, r2pn), ii2),
        );
        let ne: i64 = fxp::fp_neg(fxp::fp_add(e, SCALE));
        let j: i64 = fxp::div_count(fxp::fp_div(fxp::fp_mul(vn, ne), denom), points);
        js.push(j);
        r1s.push(r1);
        r2s.push(r2);
        i = i + 1;
    }

    // Apply the normal impulses.
    let mut i: usize = 0;
    while i < points_n
        invariant
            points_n == contacts@.len(),
            1 <= points_n <= 2,
            points == points_n as i64,
            im1 as int == inv_mass_spec(cb1),
            im2 as int == inv_mass_spec(cb2),
            ii1 as int == inv_inertia_spec(cb1),
            ii2 as int == inv_inertia_spec(cb2),
            js@.len() == points_n as int,
            r1s@.len() == points_n as int,
            r2s@.len() == points_n as int,
            forall|t: int|
                0 <= t < points_n ==> #[trigger] js@[t] as int == impulse_j(
                    cb1,
                    cb2,
                    n,
                    e as int,
                    contacts@[t],
                    points as int,
                ),
            forall|t: int| 0 <= t < points_n ==> #[trigger] r1s@[t] == arm(cb1, contacts@[t]),
            forall|t: int| 0 <= t < points_n ==> #[trigger] r2s@[t] == arm(cb2, contacts@[t]),
            0 <= i <= points_n,
            (b1, b2) == normal_apply(
                cb1,
                cb2,
                cb1,
                cb2,
                n,
                e as int,
                contacts@,
                points as int,
                i as int,
            ),
        decreases points_n - i,
    {
        let imp: Vector2 = n.scale(js[i]);
        b1.velocity = b1.velocity.sub(imp.scale(im1));
        b2.velocity = b2.velocity.add(imp.scale(im2));
        b1.angular_velocity = fxp::fp_sub(
            b1.angular_velocity,
            fxp::fp_mul(Vector2::cross(r1s[i], imp), ii1),
        );
        b2.angular_velocity = fxp::fp_add(
            b2.angular_velocity,
            fxp::fp_mul(Vector2::cross(r2s[i], imp), ii2),
        );
        i = i + 1;
    }
    let ghost nb1 = b1;
    let ghost nb2 = b2;

    // Per-contact friction impulses, from the post-impulse velocities.
    proof {
        lemma_normal_apply_fields(
            cb1,
            cb2,
            cb1,
            cb2,
            n,
            e as int,
            contacts@,
            points as int,
            points as int,
        );
    }
    let ks: i64 = fxp::fp_hypot(b1.static_friction, b2.static_friction);
    let kd: i64 = fxp::fp_hypot(b1.dynamic_friction, b2.dynamic_friction);
    let mut f_imps: Vec<Vector2> = Vec::new();
    let mut i: usize = 0;
    while i < points_n
        invariant
            points_n == contacts@.len(),
            1 <= points_n <= 2,
            points == points_n as i64,
            b1 == nb1,
            b2 == nb2,
            im1 as int == inv_mass_spec(cb1),
            im2 as int == inv_mass_spec(cb2),
            ii1 as int == inv_inertia_spec(cb1),
            ii2 as int == inv_inertia_spec(cb2),
            ks as int == hypot_fp(cb1.static_friction as int, cb2.static_friction as int),
            kd as int == hypot_fp(cb1.dynamic_friction as int, cb2.dynamic_friction as int),
            js@.len() == points_n as int,
            r1s@.len() == points_n as int,
            r2s@.len() == points_n as int,
            forall|t: int|
                0 <= t < points_n ==> #[trigger] js@[t] as int == impulse_j(
                    cb1,
                    cb2,
                    n,
                    e as int,
                    contacts@[t],
                    points as int,
                ),
            forall|t: int| 0 <= t < points_n ==> #[trigger] r1s@[t] == arm(cb1, contacts@[t]),
            forall|t: int| 0 <= t < points_n ==> #[trigger] r2s@[t] == arm(cb2, contacts@[t]),
            0 <= i <= points_n,
            f_imps@.len() == i as int,
            forall|t: int|
                0 <= t < i ==> #[trigger] f_imps@[t] == friction_impulse(
                    cb1,
                    cb2,
                    nb1,
                    nb2,
                    n,
                    e as int,
                    contacts@[t],
                    points as int,
                ),
        decreases points_n - i,
    {
        let r1p: Vector2 = r1s[i].perp();
        let r2p: Vector2 = r2s[i].perp();
        let rel: Vector2 = b2.velocity.add(r2p.scale(b2.angular_velocity)).sub(
            b1.velocity.add(r1p.scale(b1.angular_velocity)),
        );
        let t_vec: Vector2 = rel.sub(n.scale(Vector2::dot(rel, n))).norm();
        let vt: i64 = Vector2::dot(rel, t_vec);
        let r1pt: i64 = Vector2::dot(r1p, t_vec);
        let r2pt: i64 = Vector2::dot(r2p, t_vec);
        let denom: i64 = fxp::fp_add(
            fxp::fp_add(fxp::fp_add(im1, im2), fxp::fp_mul(fxp::fp_mul(r1pt, r1pt), ii1)),
            fxp::fp_mul(fxp::fp_mul(r2pt, r2pt), ii2),
        );
        let fj: i64 = fxp::div_count(fxp::fp_div(fxp::fp_neg(vt), denom), points);
        let j: i64 = js[i];
        let afj: i64 = if fj >= 0 {
            fj
        } else {
            fxp::fp_neg(fj)
        };
        let f_imp: Vector2 = if afj <= fxp::fp_mul(ks, j) {
            t_vec.scale(fj)
        } else {
            t_vec.scale(fxp::fp_mul(fxp::fp_neg(j), kd))
        };
        f_imps.push(f_imp);
        i = i + 1;
    }

    // Apply the friction impulses.
    let mut i: usize = 0;
    while i < points_n
        invariant
            points_n == contacts@.len(),
            1 <= points_n <= 2,
            points == points_n as i64,
            im1 as int == inv_mass_spec(cb1),
            im2 as int == inv_mass_spec(cb2),
            ii1 as int == inv_inertia_spec(cb1),
            ii2 as int == inv_inertia_spec(cb2),
            r1s@.len() == points_n as int,
            r2s@.len() == points_n as int,
            f_imps@.len() == points_n as int,
            forall|t: int| 0 <= t < points_n ==> #[trigger] r1s@[t] == arm(cb1, contacts@[t]),
            forall|t: int| 0 <= t < points_n ==> #[trigger] r2s@[t] == arm(cb2, contacts@[t]),
            forall|t: int|
                0 <= t < points_n ==> #[trigger] f_imps@[t] == friction_impulse(
                    cb1,
                    cb2,
                    nb1,
                    nb2,
                    n,
                    e as int,
                    contacts@[t],
                    points as int,
                ),
            0 <= i <= points_n,
            (b1, b2) == friction_apply(
                cb1,
                cb2,
                nb1,
                nb2,
                nb1,
                nb2,
                n,
                e as int,
                contacts@,
                points as int,
                i as int,
            ),
        decreases points_n - i,
    {
        let imp: Vector2 = f_imps[i];
        b1.velocity = b1.velocity.sub(imp.scale(im1));
        b2.velocity = b2.velocity.add(imp.scale(im2));
        b1.angular_velocity = fxp::fp_sub(
            b1.angular_velocity,
            fxp::fp_mul(Vector2::cross(r1s[i], imp), ii1),
        );
        b2.angular_velocity = fxp::fp_add(
            b2.angular_velocity,
            fxp::fp_mul(Vector2::cross(r2s[i], imp), ii2),
        );
        i = i + 1;
    }
    (b1, b2)
}

/// The collision resolver: one pass of sequential impulses per manifold.
pub struct CollisionResolver {
}

/// The state of the body table after resolving the first `k` manifolds in
/// order.
pub open spec fn resolve_all_upto(bodies: Seq<Body>, cols: Seq<CollisionResult>, k: int) -> Seq<
    Body,
>
    decreases k,
{
    if k <= 0 {
        bodies
    } else {
        let prev = resolve_all_upto(bodies, cols, k - 1);
        let res = cols[k - 1];
        let (nb1, nb2) = resolve_pair_spec(
            prev[res.bodies.a as int],
            prev[res.bodies.b as int],
            res.normal,
            res.overlap as int,
            res.contacts@,
        );
        prev.update(res.bodies.a as int, nb1).update(res.bodies.b as int, nb2)
    }
}

/// Whether every manifold in the list names a valid normalized pair and
/// carries one or two contact points.
pub open spec fn manifolds_wf(cols: Seq<CollisionResult>, len: int) -> bool {
    forall|t: int|
        0 <= t < cols.len() ==> (#[trigger] cols[t]).bodies.a < cols[t].bodies.b
            && (cols[t].bodies.b as int) < len && 1 <= cols[t].contacts@.len() <= 2
}

/// Resolution keeps the length of the body table.
#[verifier::rlimit(80)]
pub proof fn lemma_resolve_all_len(bodies: Seq<Body>, cols: Seq<CollisionResult>, k: int)
    requires
        manifolds_wf(cols, bodies.len() as int),
        0 <= k <= cols.len(),
    ensures
        resolve_all_upto(bodies, cols, k).len() == bodies.len(),
    decreases k,
{
    if k > 0 {
        lemma_resolve_all_len(bodies, cols, k - 1);
    }
}

/// A frozen body is untouched by any number of resolved manifolds: no
/// impulse and no correction reach it.
#[verifier::rlimit(80)]
pub proof fn lemma_resolve_all_frozen(bodies: Seq<Body>, cols: Seq<CollisionResult>, k: int, i: int)
    requires
        manifolds_wf(cols, bodies.len() as int),
        0 <= k <= cols.len(),
        0 <= i < bodies.len(),
        bodies[i].frozen,
    ensures
        resolve_all_upto(bodies, cols, k)[i] == bodies[i],
    decreases k,
{
    if k > 0 {
        lemma_resolve_all_len(bodies, cols, k - 1);
        lemma_resolve_all_frozen(bodies, cols, k - 1, i);
        let prev = resolve_all_upto(bodies, cols, k - 1);
        let res = cols[k - 1];
        lemma_resolve_frozen(
            prev[res.bodies.a as int],
            prev[res.bodies.b as int],
            res.normal,
            res.overlap as int,
            res.contacts@,
        );
    }
}

impl CollisionResolver {
    /// A resolver.
    pub fn new() -> (r: CollisionResolver) {
        CollisionResolver {  }
    }

    /// Resolves one manifold: canonicalizes the body order along the
    /// normal, applies positional correction, then the normal and
    /// friction impulses, writing only the two bodies named by the pair.
    #[verifier::rlimit(80)]
    pub fn resolve_one(&self, bodies: &mut Vec<Body>, res: &CollisionResult)
        requires
            res.bodies.a < res.bodies.b,
            (res.bodies.b as int) < old(bodies)@.len(),
            1 <= res.contacts@.len() <= 2,
        ensures
            ({
                let (nb1, nb2) = resolve_pair_spec(
                    old(bodies)@[res.bodies.a as int],
                    old(bodies)@[res.bodies.b as int],
                    res.normal,
                    res.overlap as int,
                    res.contacts@,
                );
                final(bodies)@ == old(bodies)@.update(res.bodies.a as int, nb1).update(
                    res.bodies.b as int,
                    nb2,
                )
            }),
            final(bodies)@.len() == old(bodies)@.len(),
    {
        let ia: usize = res.bodies.a;
        let ib: usize = res.bodies.b;
        let b2: Body = bodies.remove(ib);
        let b1: Body = bodies.remove(ia);
        let n: Vector2 = res.normal;

        let g1: Vector2 = b1.globalise(Vector2 { x: 0, y: 0 });
        let g2: Vector2 = b2.globalise(Vector2 { x: 0, y: 0 });
        let swapped: bool = Vector2::dot(g1, n) >= Vector2::dot(g2, n);

        let (nb1, nb2): (Body, Body) = if swapped {
            let (s2, s1): (Body, Body) = resolve_ordered_exec(b2, b1, n, res.overlap, &res.contacts);
            (s1, s2)
        } else {
            resolve_ordered_exec(b1, b2, n, res.overlap, &res.contacts)
        };
        bodies.insert(ia, nb1);
        bodies.insert(ib, nb2);
        proof {
            let old_seq = old(bodies)@;
            let (sb1, sb2) = resolve_pair_spec(
                old_seq[ia as int],
                old_seq[ib as int],
                res.normal,
                res.overlap as int,
                res.contacts@,
            );
            assert(nb1 == sb1);
            assert(nb2 == sb2);
            assert(bodies@ =~= old_seq.update(ia as int, sb1).update(ib as int, sb2));
        }
    }

    /// Resolves every manifold in order, one pass, no cross-manifold
    /// iteration.
    pub fn resolve(&self, bodies: &mut Vec<Body>, collisions: &Vec<CollisionResult>)
        requires
            manifolds_wf(collisions@, old(bodies)@.len() as int),
        ensures
            final(bodies)@ == resolve_all_upto(
                old(bodies)@,
                collisions@,
                collisions@.len() as int,
            ),
            final(bodies)@.len() == old(bodies)@.len(),
            forall|i: int|
                0 <= i < old(bodies)@.len() && old(bodies)@[i].frozen ==> final(bodies)@[i]
                    == old(bodies)@[i],
    {
        let n: usize = collisions.len();
        let mut k: usize = 0;
        while k < n
            invariant
                n == collisions@.len(),
                manifolds_wf(collisions@, old(bodies)@.len() as int),
                0 <= k <= n,
                bodies@ == resolve_all_upto(old(bodies)@, collisions@, k as int),
                bodies@.len() == old(bodies)@.len(),
            decreases n - k,
        {
            proof {
                lemma_resolve_all_len(old(bodies)@, collisions@, k as int + 1);
            }
            self.resolve_one(bodies, &collisions[k]);
            k = k + 1;
        }
        proof {
            assert forall|i: int|
                0 <= i < old(bodies)@.len() && old(bodies)@[i].frozen implies bodies@[i] == old(
                bodies,
            )@[i] by {
                lemma_resolve_all_frozen(old(bodies)@, collisions@, n as int, i);
            }
        }
    }
}

/// Elastic exchange: resolving a head-on collision of two equal unit
/// masses with restitution one and zero friction swaps their velocities
/// along the normal and leaves the transverse components alone.
///
/// Stated for the canonical ordering, a single contact on the line of
/// centers (both contact arms level with the x-aligned normal), resting
/// rotation, and velocities small enough that no fixed-point saturation
/// occurs; on those inputs the fixed-point arithmetic is exact.
pub proof fn lemma_elastic_exchange(b1: Body, b2: Body, contact: Vector2, overlap: int)
    requires
        !b1.frozen,
        !b2.frozen,
        b1.mass == SCALE,
        b2.mass == SCALE,
        b1.restitution == SCALE,
        b2.restitution == SCALE,
        b1.angular_velocity == 0,
        b2.angular_velocity == 0,
        b1.static_friction == 0,
        b1.dynamic_friction == 0,
        b2.static_friction == 0,
        b2.dynamic_friction == 0,
        arm(correct_pair(b1, b2, Vector2 { x: SCALE, y: 0 }, overlap, 1).0, contact).y == 0,
        arm(correct_pair(b1, b2, Vector2 { x: SCALE, y: 0 }, overlap, 1).1, contact).y == 0,
        -0x1000000000000000 <= b1.velocity.x <= 0x1000000000000000,
        -0x1000000000000000 <= b2.velocity.x <= 0x1000000000000000,
    ensures
        ({
            let (r1, r2) = resolve_ordered(
                b1,
                b2,
                Vector2 { x: SCALE, y: 0 },
                overlap,
                seq![contact],
            );
            &&& r1.velocity.x == b2.velocity.x
            &&& r2.velocity.x == b1.velocity.x
            &&& r1.velocity.y == b1.velocity.y
            &&& r2.velocity.y == b2.velocity.y
        }),
{
    let n = Vector2 { x: SCALE, y: 0 };
    let contacts = seq![contact];
    let points: int = 1;
    let e = min_restitution(b1, b2);
    assert(e == SCALE as int);
    let (cb1, cb2) = correct_pair(b1, b2, n, overlap, points);
    assert(cb1.velocity == b1.velocity && cb2.velocity == b2.velocity);
    assert(cb1.angular_velocity == 0 && cb2.angular_velocity == 0);
    assert(!cb1.frozen && !cb2.frozen && cb1.mass == SCALE && cb2.mass == SCALE);

    // The inverse masses are exactly one; the angular terms vanish.
    let im = inv_mass_spec(cb1);
    assert(im == div_fp(SCALE as int, SCALE as int));
    assert(vstd::math::abs(1000000) as int / vstd::math::abs(1000) as int == 1000) by (nonlinear_arith);
    assert(im == 1000);
    assert(inv_mass_spec(cb2) == 1000);

    let r1 = arm(cb1, contact);
    let r2 = arm(cb2, contact);
    let r1p = perp_v2(r1);
    let r2p = perp_v2(r2);
    assert(r1.y == 0 && r2.y == 0);
    assert(r1p.x == 0 && r2p.x == 0);

    lemma_fp_units();
    assert(scale_v2(r1p, 0) == (Vector2 { x: 0, y: 0 }));
    assert(scale_v2(r2p, 0) == (Vector2 { x: 0, y: 0 }));
    lemma_scale_zero(n);

    let rel = sub_v2(
        add_v2(cb2.velocity, scale_v2(r2p, 0)),
        add_v2(cb1.velocity, scale_v2(r1p, 0)),
    );
    assert(add_v2(cb2.velocity, Vector2 { x: 0, y: 0 }) == cb2.velocity);
    assert(rel == sub_v2(cb2.velocity, cb1.velocity));
    let vn0: int = b2.velocity.x - b1.velocity.x;
    assert(rel.x == vn0);
    assert(dot_fp(rel, n) == sat64(mul_fp(rel.x as int, SCALE as int) + mul_fp(rel.y as int, 0)));
    assert(mul_fp(rel.x as int, SCALE as int) == rel.x as int);
    assert(mul_fp(rel.y as int, 0) == 0);
    let vn = dot_fp(rel, n);
    assert(vn == vn0);

    assert(dot_fp(r1p, n) == sat64(mul_fp(0, SCALE as int) + mul_fp(r1p.y as int, 0)));
    assert(dot_fp(r1p, n) == 0);
    assert(dot_fp(r2p, n) == 0);

    let j = impulse_j(cb1, cb2, n, e, contact, points);
    assert(mul_fp(0, inv_inertia_spec(cb1)) == 0);
    assert(mul_fp(0, inv_inertia_spec(cb2)) == 0);
    let denom = add_sat(add_sat(add_sat(1000, 1000), 0), 0);
    assert(denom == 2000);
    let ne = sat64(-add_sat(e, SCALE as int));
    assert(ne == -2000);
    assert(mul_fp(vn, -2000) == sat64(tdiv(vn * -2000, 1000)));
    assert(tdiv(vn * -2000, 1000) == -2 * vn) by (nonlinear_arith)
        requires
            -0x2000000000000001 < vn < 0x2000000000000001;
    assert(mul_fp(vn, -2000) == -2 * vn);
    assert(div_fp(-2 * vn, 2000) == sat64(tdiv(-2 * vn * 1000, 2000)));
    assert(tdiv(-2 * vn * 1000, 2000) == -vn) by (nonlinear_arith)
        requires
            -0x2000000000000001 < vn < 0x2000000000000001;
    assert(tdiv(-vn, 1) == -vn) by (nonlinear_arith);
    assert(j == -vn);

    // One normal impulse along x, exactly the closing velocity.
    let imp = scale_v2(n, j);
    assert(imp.x as int == mul_fp(SCALE as int, j));
    assert(mul_fp(SCALE as int, j) == sat64(tdiv(1000 * j, 1000)));
    assert(tdiv(1000 * j, 1000) == j) by (nonlinear_arith)
        requires
            -0x2000000000000001 < j < 0x2000000000000001;
    assert(imp.x as int == j);
    assert(imp.y as int == mul_fp(0, j));
    assert(imp.y == 0);

    let (nb1, nb2) = normal_apply(cb1, cb2, cb1, cb2, n, e, contacts, points, points);
    assert(normal_apply(cb1, cb2, cb1, cb2, n, e, contacts, points, 0) == (cb1, cb2));
    assert(contacts[0] == contact);
    let d1 = scale_v2(imp, 1000);
    assert(d1.x as int == mul_fp(imp.x as int, 1000) && d1.x as int == j);
    assert(d1.y as int == mul_fp(0, 1000) && d1.y == 0);
    assert(nb1.velocity == sub_v2(cb1.velocity, d1));
    assert(nb2.velocity == add_v2(cb2.velocity, d1));
    assert(nb1.velocity.x == b2.velocity.x);
    assert(nb2.velocity.x == b1.velocity.x);
    assert(nb1.velocity.y == b1.velocity.y);
    assert(nb2.velocity.y == b2.velocity.y);

    // Zero friction coefficients make the friction impulse vanish.
    assert(hypot_fp(0, 0) == 0) by {
        assert(sqrt_floor(0) == 0);
    }
    let fimp = friction_impulse(cb1, cb2, nb1, nb2, n, e, contact, points);
    assert(mul_fp(0, impulse_j(cb1, cb2, n, e, contact, points)) == 0);
    let tv = norm_v2(
        sub_v2(
            sub_v2(
                add_v2(nb2.velocity, scale_v2(r2p, 0)),
                add_v2(nb1.velocity, scale_v2(r1p, 0)),
            ),
            scale_v2(
                n,
                dot_fp(
                    sub_v2(
                        add_v2(nb2.velocity, scale_v2(r2p, 0)),
                        add_v2(nb1.velocity, scale_v2(r1p, 0)),
                    ),
                    n,
                ),
            ),
        ),
    );
    assert(fimp == scale_v2(tv, 0) || fimp == scale_v2(
        tv,
        mul_fp(sat64(-impulse_j(cb1, cb2, n, e, contact, points)), 0),
    ));
    assert(mul_fp(sat64(-impulse_j(cb1, cb2, n, e, contact, points)), 0) == 0);
    assert(fimp == (Vector2 { x: 0, y: 0 }));

    let (fb1, fb2) = friction_apply(cb1, cb2, nb1, nb2, nb1, nb2, n, e, contacts, points, points);
    assert(friction_apply(cb1, cb2, nb1, nb2, nb1, nb2, n, e, contacts, points, 0) == (nb1, nb2));
    assert(scale_v2(fimp, 1000) == (Vector2 { x: 0, y: 0 }));
    assert(fb1.velocity == sub_v2(nb1.velocity, Vector2 { x: 0, y: 0 }));
    assert(fb2.velocity == add_v2(nb2.velocity, Vector2 { x: 0, y: 0 }));
    assert(fb1.velocity == nb1.velocity);
    assert(fb2.velocity == nb2.velocity);
}

/// Multiplying by a zero factor is exactly zero.
proof fn lemma_fp_units()
    ensures
        forall|x: int| #[trigger] mul_fp(x, 0) == 0,
        forall|x: int| #[trigger] mul_fp(0, x) == 0,
{
    assert forall|x: int| #[trigger] mul_fp(x, 0) == 0 by {
        assert(x * 0 == 0) by (nonlinear_arith);
    }
    assert forall|x: int| #[trigger] mul_fp(0, x) == 0 by {
        assert(0 * x == 0) by (nonlinear_arith);
    }
}

} // verus!
