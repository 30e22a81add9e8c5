//! Two-dimensional fixed-point vectors.

use vstd::prelude::*;
use crate::fxp::{SCALE, VERY_SMALL, sat64, tdiv, mul_fp, div_fp, hypot_fp};
use crate::fxp;

verus! {

/// A planar vector of fixed-point scalars.
#[derive(Clone, Copy, PartialEq, Eq, Structural, Debug)]
pub struct Vector2 {
    pub x: i64,
    pub y: i64,
}

/// A vector built from two integers clamped to the `i64` range.
pub open spec fn v2sat(x: int, y: int) -> Vector2 {
    Vector2 { x: sat64(x) as i64, y: sat64(y) as i64 }
}

/// Componentwise saturated sum.
pub open spec fn add_v2(a: Vector2, b: Vector2) -> Vector2 {
    v2sat(a.x + b.x, a.y + b.y)
}

/// Componentwise saturated difference.
pub open spec fn sub_v2(a: Vector2, b: Vector2) -> Vector2 {
    v2sat(a.x - b.x, a.y - b.y)
}

/// The vector scaled by a fixed-point factor.
pub open spec fn scale_v2(v: Vector2, c: int) -> Vector2 {
    v2sat(mul_fp(v.x as int, c), mul_fp(v.y as int, c))
}

/// Componentwise fixed-point product.
pub open spec fn mul_v2(a: Vector2, b: Vector2) -> Vector2 {
    v2sat(mul_fp(a.x as int, b.x as int), mul_fp(a.y as int, b.y as int))
}

/// Componentwise fixed-point quotient; a zero divisor component leaves
/// zero in that component.
pub open spec fn div_v2(a: Vector2, b: Vector2) -> Vector2 {
    v2sat(div_fp(a.x as int, b.x as int), div_fp(a.y as int, b.y as int))
}

/// The vector rotated a quarter turn counterclockwise.
pub open spec fn perp_v2(v: Vector2) -> Vector2 {
    v2sat(-(v.y as int), v.x as int)
}

/// Fixed-point dot product.
pub open spec fn dot_fp(a: Vector2, b: Vector2) -> int {
    sat64(mul_fp(a.x as int, b.x as int) + mul_fp(a.y as int, b.y as int))
}

/// Fixed-point two-dimensional cross product.
pub open spec fn cross_fp(a: Vector2, b: Vector2) -> int {
    sat64(mul_fp(a.x as int, b.y as int) - mul_fp(a.y as int, b.x as int))
}

/// Fixed-point magnitude.
pub open spec fn mag_fp(v: Vector2) -> int {
    hypot_fp(v.x as int, v.y as int)
}

/// The vector of unit length with the direction of `v`; zero when `v` has
/// magnitude zero.
pub open spec fn norm_v2(v: Vector2) -> Vector2 {
    if mag_fp(v) == 0 {
        Vector2 { x: 0, y: 0 }
    } else {
        v2sat(div_fp(v.x as int, mag_fp(v)), div_fp(v.y as int, mag_fp(v)))
    }
}

/// Whole-unit coordinates: each component divided by `SCALE`, rounded
/// toward zero.
pub open spec fn disp_v2(v: Vector2) -> Vector2 {
    v2sat(tdiv(v.x as int, SCALE as int), tdiv(v.y as int, SCALE as int))
}

/// Projection of `v1` onto `v2`.
pub open spec fn project_v2(v1: Vector2, v2: Vector2) -> Vector2 {
    scale_v2(v2, div_fp(dot_fp(v1, v2), dot_fp(v2, v2)))
}

/// Squared distance (as a fixed-point scalar) from `p` to the segment
/// `l1..l2`, with the closest point of the segment.
pub open spec fn p_dist_spec(p: Vector2, l1: Vector2, l2: Vector2) -> (int, Vector2) {
    let seg = sub_v2(l2, l1);
    let t = div_fp(dot_fp(sub_v2(p, l1), seg), dot_fp(seg, seg));
    let out = if t <= 0 {
        l1
    } else if t >= SCALE as int {
        l2
    } else {
        add_v2(l1, scale_v2(seg, t))
    };
    (dot_fp(sub_v2(out, p), sub_v2(out, p)), out)
}

/// Whether two points lie within `VERY_SMALL` of each other, judged on the
/// squared distance as the fixed-point scalar `dot_fp`.
pub open spec fn almost_eq_v2(v1: Vector2, v2: Vector2) -> bool {
    dot_fp(sub_v2(v1, v2), sub_v2(v1, v2)) <= mul_fp(VERY_SMALL as int, VERY_SMALL as int)
}

impl Vector2 {
    /// The vector with both components equal to `value`.
    pub fn from(value: i64) -> (r: Vector2)
        ensures
            r == (Vector2 { x: value, y: value }),
    {
        Vector2 { x: value, y: value }
    }

    /// Componentwise saturated sum.
    pub fn add(self, rhs: Vector2) -> (r: Vector2)
        ensures
            r == add_v2(self, rhs),
    {
        Vector2 { x: fxp::fp_add(self.x, rhs.x), y: fxp::fp_add(self.y, rhs.y) }
    }

    /// Componentwise saturated difference.
    pub fn sub(self, rhs: Vector2) -> (r: Vector2)
        ensures
            r == sub_v2(self, rhs),
    {
        Vector2 { x: fxp::fp_sub(self.x, rhs.x), y: fxp::fp_sub(self.y, rhs.y) }
    }

    /// The vector scaled by a fixed-point factor.
    pub fn scale(self, c: i64) -> (r: Vector2)
        ensures
            r == scale_v2(self, c as int),
    {
        Vector2 { x: fxp::fp_mul(self.x, c), y: fxp::fp_mul(self.y, c) }
    }

    /// Componentwise fixed-point product.
    pub fn mul(self, rhs: Vector2) -> (r: Vector2)
        ensures
            r == mul_v2(self, rhs),
    {
        Vector2 { x: fxp::fp_mul(self.x, rhs.x), y: fxp::fp_mul(self.y, rhs.y) }
    }

    /// Componentwise fixed-point quotient, leaving zero where the divisor
    /// component is zero.
    pub fn div(self, rhs: Vector2) -> (r: Vector2)
        ensures
            r == div_v2(self, rhs),
    {
        Vector2 { x: fxp::fp_div(self.x, rhs.x), y: fxp::fp_div(self.y, rhs.y) }
    }

    /// The vector rotated a quarter turn counterclockwise.
    pub fn perp(self) -> (r: Vector2)
        ensures
            r == perp_v2(self),
    {
        Vector2 { x: fxp::fp_neg(self.y), y: self.x }
    }

    /// Fixed-point magnitude.
    pub fn mag(self) -> (r: i64)
        ensures
            r as int == mag_fp(self),
    {
        fxp::fp_hypot(self.x, self.y)
    }

    /// The unit-length vector with this direction; zero for the zero vector.
    pub fn norm(self) -> (r: Vector2)
        ensures
            r == norm_v2(self),
    {
        let m: i64 = self.mag();
        if m == 0 {
            Vector2 { x: 0, y: 0 }
        } else {
            Vector2 { x: fxp::fp_div(self.x, m), y: fxp::fp_div(self.y, m) }
        }
    }

    /// Whole-unit coordinates, rounded toward zero.
    pub fn disp(self) -> (r: Vector2)
        ensures
            r == disp_v2(self),
    {
        Vector2 { x: fxp::div_count(self.x, SCALE), y: fxp::div_count(self.y, SCALE) }
    }

    /// Fixed-point dot product.
    pub fn dot(v1: Vector2, v2: Vector2) -> (r: i64)
        ensures
            r as int == dot_fp(v1, v2),
    {
        fxp::fp_add(fxp::fp_mul(v1.x, v2.x), fxp::fp_mul(v1.y, v2.y))
    }

    /// Fixed-point two-dimensional cross product.
    pub fn cross(v1: Vector2, v2: Vector2) -> (r: i64)
        ensures
            r as int == cross_fp(v1, v2),
    {
        fxp::fp_sub(fxp::fp_mul(v1.x, v2.y), fxp::fp_mul(v1.y, v2.x))
    }

    /// Cross product of a vector with a scalar normal to the plane.
    pub fn cross_vc(v: Vector2, c: i64) -> (r: Vector2)
        ensures
            r.x as int == mul_fp(c as int, v.y as int),
            r.y as int == sat64(-mul_fp(c as int, v.x as int)),
    {
        Vector2 { x: fxp::fp_mul(c, v.y), y: fxp::fp_neg(fxp::fp_mul(c, v.x)) }
    }

    /// Cross product of a scalar normal to the plane with a vector.
    pub fn cross_cv(c: i64, v: Vector2) -> (r: Vector2)
        ensures
            r.x as int == sat64(-mul_fp(c as int, v.y as int)),
            r.y as int == mul_fp(c as int, v.x as int),
    {
        Vector2 { x: fxp::fp_neg(fxp::fp_mul(c, v.y)), y: fxp::fp_mul(c, v.x) }
    }

    /// Projection of `v1` onto `v2`.
    pub fn project(v1: Vector2, v2: Vector2) -> (r: Vector2)
        ensures
            r == project_v2(v1, v2),
    {
        let d: i64 = Vector2::dot(v1, v2);
        let len_sq: i64 = Vector2::dot(v2, v2);
        v2.scale(fxp::fp_div(d, len_sq))
    }

    /// Squared distance from `p` to the segment `l1..l2`, with the closest
    /// point of the segment.
    pub fn p_dist(p: Vector2, l1: Vector2, l2: Vector2) -> (r: (i64, Vector2))
        ensures
            (r.0 as int, r.1) == p_dist_spec(p, l1, l2),
    {
        let seg: Vector2 = l2.sub(l1);
        let l1_p: Vector2 = p.sub(l1);
        let proj: i64 = Vector2::dot(l1_p, seg);
        let len_sq: i64 = Vector2::dot(seg, seg);
        let t: i64 = fxp::fp_div(proj, len_sq);

        let out: Vector2 = if t <= 0 {
            l1
        } else if t >= SCALE {
            l2
        } else {
            l1.add(seg.scale(t))
        };

        let diff: Vector2 = out.sub(p);
        (Vector2::dot(diff, diff), out)
    }

    /// Whether two points lie within `VERY_SMALL` of each other.
    pub fn almost_eq(v1: Vector2, v2: Vector2) -> (r: bool)
        ensures
            r == almost_eq_v2(v1, v2),
    {
        let diff: Vector2 = v1.sub(v2);
        Vector2::dot(diff, diff) <= fxp::fp_mul(VERY_SMALL, VERY_SMALL)
    }
}

/// A direction paired with a magnitude.
#[derive(Clone, Copy, PartialEq, Eq, Structural, Debug)]
pub struct Vector2M {
    pub x: i64,
    pub y: i64,
    pub m: i64,
}

impl Vector2M {
    /// The bare direction.
    pub fn to_vec2(self) -> (r: Vector2)
        ensures
            r == (Vector2 { x: self.x, y: self.y }),
    {
        Vector2 { x: self.x, y: self.y }
    }
}

/// A polygon vertex: a position with a stable identifier.
#[derive(Clone, Copy, PartialEq, Eq, Structural, Debug)]
pub struct Vertex {
    pub id: u32,
    pub x: i64,
    pub y: i64,
}

impl Vertex {
    /// The vertex position as a vector.
    pub fn to_vec2(self) -> (r: Vector2)
        ensures
            r == (Vector2 { x: self.x, y: self.y }),
    {
        Vector2 { x: self.x, y: self.y }
    }
}

} // verus!
