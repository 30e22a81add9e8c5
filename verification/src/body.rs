//! Rigid bodies: geometry, transform, mass properties and motion state.

use vstd::prelude::*;
use crate::fxp::{SCALE, sat64, tdiv, mul_fp, div_fp, add_sat};
use crate::fxp;
use crate::vec2::{Vector2, Vertex, v2sat, add_v2, sub_v2, scale_v2, perp_v2, dot_fp, cross_fp, norm_v2};

verus! {

/// The kind of shape a body carries.
#[derive(Clone, Copy, PartialEq, Eq, Structural, Debug)]
pub enum BodyForm {
    Polygon,
    Circle,
}

/// The four world-space corner points bounding a body.
#[derive(Clone, Debug)]
pub struct AABB {
    pub points: Vec<Vector2>,
}

/// A physical object in the simulation: a convex polygon with a transform,
/// mass properties, motion state and material coefficients.
///
/// The rotation is carried as a fixed-point direction vector (the cosine and
/// sine of the rotation angle), so that rotating a point is exact integer
/// arithmetic; the integrator advances it by a small-angle rotation and
/// renormalizes.
#[derive(Clone, Debug)]
pub struct Body {
    pub form: BodyForm,
    pub position: Vector2,
    pub rotation: Vector2,
    pub origin: Vector2,
    pub radius: Option<i64>,
    pub sides: u32,
    pub vertices: Vec<Vertex>,
    pub width: Option<i64>,
    pub height: Option<i64>,
    pub mass: i64,
    pub inertia: i64,
    pub frozen: bool,
    pub velocity: Vector2,
    pub restitution: i64,
    pub angular_velocity: i64,
    pub torque: i64,
    pub static_friction: i64,
    pub dynamic_friction: i64,
    pub force_buffer: Vector2,
    pub collision_group: i32,
    pub ignore_groups: Vec<i32>,
}

/// A point rotated by the direction vector `rot`.
pub open spec fn rotate_spec(rot: Vector2, v: Vector2) -> Vector2 {
    v2sat(
        mul_fp(v.x as int, rot.x as int) - mul_fp(v.y as int, rot.y as int),
        mul_fp(v.x as int, rot.y as int) + mul_fp(v.y as int, rot.x as int),
    )
}

/// A body-local point carried into world space.
pub open spec fn globalise_spec(b: Body, v: Vector2) -> Vector2 {
    add_v2(add_v2(b.origin, b.position), rotate_spec(b.rotation, v))
}

/// Whether the body is a rectangle-like polygon.
pub open spec fn is_rect_spec(b: Body) -> bool {
    b.form == BodyForm::Polygon && b.sides == 4 && b.width.is_some() && b.height.is_some()
}

/// Whether a vertex lies inside the axis-aligned box `[x0, x1] x [y0, y1]`.
pub open spec fn vertex_in_box(v: Vertex, x0: int, x1: int, y0: int, y1: int) -> bool {
    &&& x0 <= v.x as int
    &&& v.x as int <= x1
    &&& y0 <= v.y as int
    &&& v.y as int <= y1
}

/// Whether every vertex lies inside the extent the bounding box is built
/// from: the radius square for a radius-bearing body, else the
/// width-by-height rectangle.
pub open spec fn vertices_in_extent(b: Body) -> bool {
    if b.radius.is_some() {
        let r = b.radius.unwrap() as int;
        forall|i: int|
            0 <= i < b.vertices@.len() ==> vertex_in_box(#[trigger] b.vertices@[i], -r, r, -r, r)
    } else {
        &&& b.width.is_some()
        &&& b.height.is_some()
        &&& forall|i: int|
            0 <= i < b.vertices@.len() ==> vertex_in_box(
                #[trigger] b.vertices@[i],
                0,
                b.width.unwrap() as int,
                0,
                b.height.unwrap() as int,
            )
    }
}

/// Structural soundness: one vertex per side, at least three sides, an
/// extent (radius or width/height) to bound the shape with, no zero-length
/// edge (so every separating axis is a real direction), and every vertex
/// inside the extent (so the bounding box really bounds the body).
pub open spec fn well_formed(b: Body) -> bool {
    &&& b.vertices@.len() == b.sides as int
    &&& b.sides >= 3
    &&& b.radius.is_some() || (b.width.is_some() && b.height.is_some())
    &&& forall|i: int| 0 <= i < b.vertices@.len() ==> #[trigger] edge_nonzero(b.vertices@, i)
    &&& vertices_in_extent(b)
}

/// The body's center point.
pub open spec fn center_spec(b: Body) -> Vector2 {
    if is_rect_spec(b) {
        add_v2(
            b.position,
            v2sat(tdiv(b.width.unwrap() as int, 2), tdiv(b.height.unwrap() as int, 2)),
        )
    } else {
        let r = if b.radius.is_some() { b.radius.unwrap() as int } else { SCALE as int };
        add_v2(b.position, v2sat(r, r))
    }
}

/// Inverse mass: zero for a frozen or massless body.
pub open spec fn inv_mass_spec(b: Body) -> int {
    if b.frozen || b.mass == 0 {
        0
    } else {
        div_fp(SCALE as int, b.mass as int)
    }
}

/// Inverse moment of inertia: zero for a frozen or inertialess body.
pub open spec fn inv_inertia_spec(b: Body) -> int {
    if b.frozen || b.inertia == 0 {
        0
    } else {
        div_fp(SCALE as int, b.inertia as int)
    }
}

/// The four world-space corner points of the body's bounding box.
pub open spec fn aabb_spec(b: Body) -> Seq<Vector2> {
    if b.radius.is_some() {
        let r = b.radius.unwrap() as int;
        seq![
            globalise_spec(b, v2sat(-r, -r)),
            globalise_spec(b, v2sat(r, -r)),
            globalise_spec(b, v2sat(r, r)),
            globalise_spec(b, v2sat(-r, r)),
        ]
    } else {
        let w = b.width.unwrap() as int;
        let h = b.height.unwrap() as int;
        seq![
            globalise_spec(b, v2sat(0, 0)),
            globalise_spec(b, v2sat(0, h)),
            globalise_spec(b, v2sat(w, h)),
            globalise_spec(b, v2sat(w, 0)),
        ]
    }
}

/// The world-space vertex at index `i`.
pub open spec fn world_vertex(b: Body, i: int) -> Vector2 {
    globalise_spec(b, Vector2 { x: b.vertices@[i].x, y: b.vertices@[i].y })
}

/// The outward edge normal of the edge leaving vertex `i`: the edge vector
/// rotated a quarter turn.
pub open spec fn axis_spec(b: Body, i: int) -> Vector2 {
    let p1 = world_vertex(b, i);
    let p2 = world_vertex(b, if i + 1 == b.sides as int { 0 } else { i + 1 });
    perp_v2(sub_v2(p2, p1))
}

/// All edge normals of the body, one per side.
pub open spec fn axes_spec(b: Body) -> Seq<Vector2> {
    Seq::new(b.sides as nat, |i: int| axis_spec(b, i))
}

/// Accumulator state of the inertia scan: the area-weighted running
/// centroid, the signed area, and the second moment about the origin, all
/// accumulated triangle fan by triangle fan.
pub open spec fn inertia_loop_spec(verts: Seq<Vertex>, n: int) -> (Vector2, int, int)
    decreases n,
{
    if n <= 0 {
        (Vector2 { x: 0, y: 0 }, 0, 0)
    } else {
        let (center, area, mmoi) = inertia_loop_spec(verts, n - 1);
        let prev = if n - 1 == 0 { verts.len() as int - 1 } else { n - 2 };
        let a = Vector2 { x: verts[prev].x, y: verts[prev].y };
        let b = Vector2 { x: verts[n - 1].x, y: verts[n - 1].y };
        let ab = add_v2(a, b);
        let center_s = v2sat(tdiv(ab.x as int, 3), tdiv(ab.y as int, 3));
        let area_s = sat64(tdiv(cross_fp(a, b), 2));
        let mmoi_s = sat64(tdiv(
            mul_fp(area_s, sat64(add_sat(dot_fp(a, a), dot_fp(a, b)) + dot_fp(b, b))),
            6,
        ));
        let num = add_v2(scale_v2(center, area), scale_v2(center_s, area_s));
        let den = add_sat(area, area_s);
        let center2 = v2sat(div_fp(num.x as int, den), div_fp(num.y as int, den));
        (center2, add_sat(area, area_s), add_sat(mmoi, mmoi_s))
    }
}

/// Moment of inertia of a polygon of the given mass: the origin moment of
/// the `inertia_loop_spec` scan scaled by density (uniform mass over
/// area), shifted to the centroid by the parallel-axis rule — subtracting
/// the mass times the squared centroid distance.
pub open spec fn inertia_spec(verts: Seq<Vertex>, mass: int) -> int {
    let (center, area, mmoi) = inertia_loop_spec(verts, verts.len() as int);
    let density = div_fp(mass, area);
    sat64(mul_fp(mmoi, density) - mul_fp(mass, dot_fp(center, center)))
}

/// The accumulated signed area of the polygon's triangle-fan scan.
pub open spec fn polygon_area_spec(verts: Seq<Vertex>) -> int {
    inertia_loop_spec(verts, verts.len() as int).1
}

/// Moment of inertia of a rectangle: `mass * (w^2 + h^2) / 12`.
pub open spec fn rect_inertia_spec(mass: int, w: int, h: int) -> int {
    sat64(tdiv(mul_fp(mass, add_sat(mul_fp(w, w), mul_fp(h, h))), 12))
}

/// Whether the construction parameters describe a rectangle-like body.
pub open spec fn rect_like(sides: u32, width: Option<i64>, height: Option<i64>) -> bool {
    sides == 4 && width.is_some() && height.is_some()
}

/// Validity of rectangle parameters: no radius (a rectangle's bounding
/// box comes from its extents, so a radius would not bound it), positive
/// extents, non-negative mass, restitution within `[0, 1]`.
pub open spec fn rect_params_ok(
    radius: Option<i64>,
    width: int,
    height: int,
    mass: int,
    restitution: int,
) -> bool {
    &&& radius.is_none()
    &&& width > 0
    &&& height > 0
    &&& mass >= 0
    &&& 0 <= restitution <= SCALE as int
}

/// Whether the edge leaving vertex `i` has nonzero length.
pub open spec fn edge_nonzero(verts: Seq<Vertex>, i: int) -> bool {
    let j = if i + 1 == verts.len() { 0int } else { i + 1 };
    verts[i].x != verts[j].x || verts[i].y != verts[j].y
}

/// Validity of polygon parameters: one vertex per side, at least three
/// sides, no zero-length edge (a zero axis would break the separating-axis
/// test), every vertex inside the radius square (so the bounding box
/// bounds the body), nonzero area (a shrunk polygon is rejected at
/// construction), non-negative mass, restitution within `[0, 1]`.
pub open spec fn poly_params_ok(
    sides: u32,
    verts: Seq<Vertex>,
    radius: int,
    mass: int,
    restitution: int,
) -> bool {
    &&& verts.len() == sides as int
    &&& sides >= 3
    &&& mass >= 0
    &&& 0 <= restitution <= SCALE as int
    &&& forall|i: int| 0 <= i < verts.len() ==> #[trigger] edge_nonzero(verts, i)
    &&& forall|i: int|
        0 <= i < verts.len() ==> vertex_in_box(#[trigger] verts[i], -radius, radius, -radius, radius)
    &&& polygon_area_spec(verts) != 0
}

/// The body `update(dt)` produces when it is not frozen: semi-implicit
/// Euler over velocity, angular velocity, position and rotation, then the
/// force accumulators cleared.
pub open spec fn integrated_spec(b: Body, dt: int) -> Body {
    let im = inv_mass_spec(b);
    let ii = inv_inertia_spec(b);
    let velocity = add_v2(b.velocity, scale_v2(b.force_buffer, mul_fp(im, dt)));
    let angular_velocity = add_sat(b.angular_velocity as int, mul_fp(b.torque as int, mul_fp(ii, dt)));
    let position = add_v2(b.position, scale_v2(velocity, dt));
    let dtheta = mul_fp(angular_velocity, dt);
    let rotation = norm_v2(add_v2(b.rotation, scale_v2(perp_v2(b.rotation), dtheta)));
    Body {
        velocity,
        angular_velocity: angular_velocity as i64,
        position,
        rotation,
        force_buffer: Vector2 { x: 0, y: 0 },
        torque: 0,
        ..b
    }
}

impl Body {
    /// Builds a body from validated parameters, or `None` when they are
    /// degenerate.  A four-sided body with both extents present is laid out
    /// as a rectangle from its own extents (and carries no radius); any
    /// other polygon takes the given vertex list, which must hold one
    /// vertex per side, no zero-length edge, every vertex inside the
    /// radius square, and nonzero area.
    pub fn new(
        form: BodyForm,
        position: Vector2,
        radius: Option<i64>,
        sides: u32,
        width: Option<i64>,
        height: Option<i64>,
        mass: i64,
        restitution: i64,
        vertices: Vec<Vertex>,
    ) -> (r: Option<Body>)
        ensures
            rect_like(sides, width, height) ==> (r.is_some() <==> rect_params_ok(
                radius,
                width.unwrap() as int,
                height.unwrap() as int,
                mass as int,
                restitution as int,
            )),
            rect_like(sides, width, height) && r.is_some() ==> {
                let b = r.unwrap();
                &&& b.vertices@ == rect_vertices_spec(width.unwrap(), height.unwrap())
                &&& b.origin == (Vector2 { x: 0, y: 0 })
                &&& b.radius == radius
                &&& b.sides == 4u32
                &&& b.width == width
                &&& b.height == height
                &&& b.inertia as int == rect_inertia_spec(
                    mass as int,
                    width.unwrap() as int,
                    height.unwrap() as int,
                )
            },
            !rect_like(sides, width, height) ==> (r.is_some() <==> poly_params_ok(
                sides,
                vertices@,
                if radius.is_some() { radius.unwrap() as int } else { SCALE as int },
                mass as int,
                restitution as int,
            )),
            !rect_like(sides, width, height) && r.is_some() ==> {
                let b = r.unwrap();
                let rad = if radius.is_some() { radius.unwrap() } else { SCALE };
                &&& b.vertices@ == vertices@
                &&& b.origin == (Vector2 { x: rad, y: rad })
                &&& b.radius == Some(rad)
                &&& b.sides == sides
                &&& b.width == width
                &&& b.height == height
                &&& b.inertia as int == inertia_spec(vertices@, mass as int)
            },
            r.is_some() ==> {
                let b = r.unwrap();
                &&& well_formed(b)
                &&& b.form == form
                &&& b.position == position
                &&& b.rotation == (Vector2 { x: SCALE, y: 0 })
                &&& b.mass == mass
                &&& b.restitution == restitution
                &&& !b.frozen
                &&& b.velocity == (Vector2 { x: 0, y: 0 })
                &&& b.angular_velocity == 0i64
                &&& b.torque == 0i64
                &&& b.static_friction == 120i64
                &&& b.dynamic_friction == 40i64
                &&& b.force_buffer == (Vector2 { x: 0, y: 0 })
                &&& b.collision_group == 0i32
                &&& b.ignore_groups@ == Seq::<i32>::empty()
            },
    {
        if mass < 0 || restitution < 0 || restitution > SCALE {
            return None;
        }
        if sides == 4 && width.is_some() && height.is_some() {
            if radius.is_some() {
                return None;
            }
            let w: i64 = width.unwrap();
            let h: i64 = height.unwrap();
            if w <= 0 || h <= 0 {
                return None;
            }
            let mut vs: Vec<Vertex> = Vec::new();
            vs.push(Vertex { id: 0, x: 0, y: 0 });
            vs.push(Vertex { id: 1, x: 0, y: h });
            vs.push(Vertex { id: 2, x: w, y: h });
            vs.push(Vertex { id: 3, x: w, y: 0 });
            let inertia: i64 = fxp::div_count(
                fxp::fp_mul(mass, fxp::fp_add(fxp::fp_mul(w, w), fxp::fp_mul(h, h))),
                12,
            );
            proof {
                assert(vs@ =~= rect_vertices_spec(w, h));
                assert forall|k: int| 0 <= k < vs@.len() implies #[trigger] edge_nonzero(
                    vs@,
                    k,
                ) by {
                    assert(vs@[0].y != vs@[1].y && vs@[1].x != vs@[2].x && vs@[2].y != vs@[3].y
                        && vs@[3].x != vs@[0].x);
                }
            }
            Some(
                Body {
                    form,
                    position,
                    rotation: Vector2 { x: SCALE, y: 0 },
                    origin: Vector2 { x: 0, y: 0 },
                    radius,
                    sides: 4,
                    vertices: vs,
                    width,
                    height,
                    mass,
                    inertia,
                    frozen: false,
                    velocity: Vector2 { x: 0, y: 0 },
                    restitution,
                    angular_velocity: 0,
                    torque: 0,
                    static_friction: 120,
                    dynamic_friction: 40,
                    force_buffer: Vector2 { x: 0, y: 0 },
                    collision_group: 0,
                    ignore_groups: Vec::new(),
                },
            )
        } else {
            if sides < 3 || vertices.len() != sides as usize {
                return None;
            }
            let n: usize = vertices.len();
            let mut i: usize = 0;
            while i < n
                invariant
                    n == vertices@.len(),
                    n == sides as int,
                    sides >= 3,
                    !rect_like(sides, width, height),
                    mass >= 0,
                    0 <= restitution <= SCALE as int,
                    0 <= i <= n,
                    forall|k: int| 0 <= k < i ==> #[trigger] edge_nonzero(vertices@, k),
                decreases n - i,
            {
                let j: usize = if i + 1 == n { 0 } else { i + 1 };
                if vertices[i].x == vertices[j].x && vertices[i].y == vertices[j].y {
                    proof {
                        assert(!edge_nonzero(vertices@, i as int));
                    }
                    return None;
                }
                proof {
                    assert(edge_nonzero(vertices@, i as int));
                }
                i = i + 1;
            }
            let r: i64 = match radius {
                Some(rr) => rr,
                None => SCALE,
            };
            let mut i: usize = 0;
            while i < n
                invariant
                    n == vertices@.len(),
                    n == sides as int,
                    sides >= 3,
                    !rect_like(sides, width, height),
                    mass >= 0,
                    0 <= restitution <= SCALE as int,
                    r as int == (if radius.is_some() { radius.unwrap() as int } else { SCALE as int }),
                    0 <= i <= n,
                    forall|k: int| 0 <= k < n ==> #[trigger] edge_nonzero(vertices@, k),
                    forall|k: int|
                        0 <= k < i ==> vertex_in_box(
                            #[trigger] vertices@[k],
                            -(r as int),
                            r as int,
                            -(r as int),
                            r as int,
                        ),
                decreases n - i,
            {
                let xi: i128 = vertices[i].x as i128;
                let yi: i128 = vertices[i].y as i128;
                let lo: i128 = -(r as i128);
                let hi: i128 = r as i128;
                if xi < lo || xi > hi || yi < lo || yi > hi {
                    proof {
                        assert(!vertex_in_box(
                            vertices@[i as int],
                            -(r as int),
                            r as int,
                            -(r as int),
                            r as int,
                        ));
                    }
                    return None;
                }
                i = i + 1;
            }
            let area: i64 = Body::polygon_area(&vertices);
            if area == 0 {
                return None;
            }
            let inertia: i64 = Body::calculate_inertia(&vertices, mass);
            Some(
                Body {
                    form,
                    position,
                    rotation: Vector2 { x: SCALE, y: 0 },
                    origin: Vector2 { x: r, y: r },
                    radius: Some(r),
                    sides,
                    vertices,
                    width,
                    height,
                    mass,
                    inertia,
                    frozen: false,
                    velocity: Vector2 { x: 0, y: 0 },
                    restitution,
                    angular_velocity: 0,
                    torque: 0,
                    static_friction: 120,
                    dynamic_friction: 40,
                    force_buffer: Vector2 { x: 0, y: 0 },
                    collision_group: 0,
                    ignore_groups: Vec::new(),
                },
            )
        }
    }

    /// The moment of inertia of a polygon about its centroid, for uniform
    /// density `mass / area`: a triangle-fan scan accumulating area,
    /// centroid and origin moment, closed by the parallel-axis rule.
    pub fn calculate_inertia(vertices: &Vec<Vertex>, mass: i64) -> (r: i64)
        requires
            vertices@.len() >= 1,
        ensures
            r as int == inertia_spec(vertices@, mass as int),
    {
        let n: usize = vertices.len();
        let mut center: Vector2 = Vector2 { x: 0, y: 0 };
        let mut area: i64 = 0;
        let mut mmoi: i64 = 0;
        let mut i: usize = 0;
        while i < n
            invariant
                n == vertices@.len(),
                n >= 1,
                0 <= i <= n,
                (center, area as int, mmoi as int) == inertia_loop_spec(vertices@, i as int),
            decreases n - i,
        {
            let prev: usize = if i == 0 { n - 1 } else { i - 1 };
            let a: Vector2 = vertices[prev].to_vec2();
            let b: Vector2 = vertices[i].to_vec2();

            let ab: Vector2 = a.add(b);
            let center_s: Vector2 = Vector2 {
                x: fxp::div_count(ab.x, 3),
                y: fxp::div_count(ab.y, 3),
            };
            let area_s: i64 = fxp::div_count(Vector2::cross(a, b), 2);
            let dots: i64 = fxp::fp_add(
                fxp::fp_add(Vector2::dot(a, a), Vector2::dot(a, b)),
                Vector2::dot(b, b),
            );
            let mmoi_s: i64 = fxp::div_count(fxp::fp_mul(area_s, dots), 6);

            let num: Vector2 = center.scale(area).add(center_s.scale(area_s));
            let den: i64 = fxp::fp_add(area, area_s);
            center = Vector2 { x: fxp::fp_div(num.x, den), y: fxp::fp_div(num.y, den) };
            area = fxp::fp_add(area, area_s);
            mmoi = fxp::fp_add(mmoi, mmoi_s);

            i = i + 1;
        }
        let density: i64 = fxp::fp_div(mass, area);
        fxp::fp_sub(fxp::fp_mul(mmoi, density), fxp::fp_mul(mass, Vector2::dot(center, center)))
    }

    /// The accumulated signed area of the polygon's triangle-fan scan.
    pub fn polygon_area(vertices: &Vec<Vertex>) -> (r: i64)
        requires
            vertices@.len() >= 1,
        ensures
            r as int == polygon_area_spec(vertices@),
    {
        let n: usize = vertices.len();
        let mut area: i64 = 0;
        let mut i: usize = 0;
        while i < n
            invariant
                n == vertices@.len(),
                n >= 1,
                0 <= i <= n,
                area as int == inertia_loop_spec(vertices@, i as int).1,
            decreases n - i,
        {
            let prev: usize = if i == 0 { n - 1 } else { i - 1 };
            let a: Vector2 = vertices[prev].to_vec2();
            let b: Vector2 = vertices[i].to_vec2();
            area = fxp::fp_add(area, fxp::div_count(Vector2::cross(a, b), 2));
            i = i + 1;
        }
        area
    }

    /// Advances the body by `dt`: a no-op when frozen, otherwise
    /// semi-implicit Euler with the force accumulators cleared.
    pub fn update(&mut self, dt: i64)
        ensures
            old(self).frozen ==> *final(self) == *old(self),
            !old(self).frozen ==> *final(self) == integrated_spec(*old(self), dt as int),
    {
        if self.frozen {
            return;
        }
        let im: i64 = self.inv_mass();
        let ii: i64 = self.inv_inertia();
        self.velocity = self.velocity.add(self.force_buffer.scale(fxp::fp_mul(im, dt)));
        self.angular_velocity = fxp::fp_add(
            self.angular_velocity,
            fxp::fp_mul(self.torque, fxp::fp_mul(ii, dt)),
        );
        self.position = self.position.add(self.velocity.scale(dt));
        let dtheta: i64 = fxp::fp_mul(self.angular_velocity, dt);
        self.rotation = self.rotation.add(self.rotation.perp().scale(dtheta)).norm();
        self.force_buffer = Vector2 { x: 0, y: 0 };
        self.torque = 0;
    }

    /// Whether the body is a rectangle-like polygon.
    pub fn is_rect(&self) -> (r: bool)
        ensures
            r == is_rect_spec(*self),
    {
        self.form == BodyForm::Polygon && self.sides == 4 && self.width.is_some()
            && self.height.is_some()
    }

    /// Carries a body-local point into world space.
    pub fn globalise(&self, v: Vector2) -> (r: Vector2)
        ensures
            r == globalise_spec(*self, v),
    {
        let rotated: Vector2 = Vector2 {
            x: fxp::fp_sub(
                fxp::fp_mul(v.x, self.rotation.x),
                fxp::fp_mul(v.y, self.rotation.y),
            ),
            y: fxp::fp_add(
                fxp::fp_mul(v.x, self.rotation.y),
                fxp::fp_mul(v.y, self.rotation.x),
            ),
        };
        self.origin.add(self.position).add(rotated)
    }

    /// The world-space corner points of the body's bounding box.  For a
    /// well-formed body the axis-aligned box these points span contains
    /// every world-space vertex (`detector::lemma_aabb_bounds`).
    pub fn aabb(&self) -> (r: AABB)
        requires
            self.radius.is_some() || (self.width.is_some() && self.height.is_some()),
        ensures
            r.points@ == aabb_spec(*self),
    {
        let mut points: Vec<Vector2> = Vec::new();
        if self.radius.is_some() {
            let r: i64 = match self.radius {
                Some(rr) => rr,
                None => 0,
            };
            let nr: i64 = fxp::fp_neg(r);
            points.push(self.globalise(Vector2 { x: nr, y: nr }));
            points.push(self.globalise(Vector2 { x: r, y: nr }));
            points.push(self.globalise(Vector2 { x: r, y: r }));
            points.push(self.globalise(Vector2 { x: nr, y: r }));
        } else {
            let w: i64 = match self.width {
                Some(ww) => ww,
                None => 0,
            };
            let h: i64 = match self.height {
                Some(hh) => hh,
                None => 0,
            };
            points.push(self.globalise(Vector2 { x: 0, y: 0 }));
            points.push(self.globalise(Vector2 { x: 0, y: h }));
            points.push(self.globalise(Vector2 { x: w, y: h }));
            points.push(self.globalise(Vector2 { x: w, y: 0 }));
        }
        proof {
            assert(points@ =~= aabb_spec(*self));
        }
        AABB { points }
    }

    /// The outward edge normals of the polygon, one per side.
    pub fn axes(&self) -> (r: Vec<Vector2>)
        requires
            well_formed(*self),
        ensures
            r@ == axes_spec(*self),
    {
        let n: usize = self.sides as usize;
        let mut axes: Vec<Vector2> = Vec::new();
        let mut i: usize = 0;
        while i < n
            invariant
                well_formed(*self),
                n == self.sides as int,
                0 <= i <= n,
                axes@.len() == i as int,
                forall|k: int| 0 <= k < i ==> axes@[k] == axis_spec(*self, k),
            decreases n - i,
        {
            let j: usize = if i + 1 == n { 0 } else { i + 1 };
            let p1: Vector2 = self.globalise(self.vertices[i].to_vec2());
            let p2: Vector2 = self.globalise(self.vertices[j].to_vec2());
            axes.push(p2.sub(p1).perp());
            i = i + 1;
        }
        proof {
            assert(axes@ =~= axes_spec(*self));
        }
        axes
    }

    /// The body's center point.
    pub fn center(&self) -> (r: Vector2)
        ensures
            r == center_spec(*self),
    {
        if self.is_rect() {
            let w: i64 = match self.width {
                Some(ww) => ww,
                None => 0,
            };
            let h: i64 = match self.height {
                Some(hh) => hh,
                None => 0,
            };
            self.position.add(Vector2 { x: fxp::div_count(w, 2), y: fxp::div_count(h, 2) })
        } else {
            let r: i64 = match self.radius {
                Some(rr) => rr,
                None => SCALE,
            };
            self.position.add(Vector2 { x: r, y: r })
        }
    }

    /// Inverse mass: zero for a frozen or massless body.
    pub fn inv_mass(&self) -> (r: i64)
        ensures
            r as int == inv_mass_spec(*self),
    {
        if self.frozen || self.mass == 0 {
            0
        } else {
            fxp::fp_div(SCALE, self.mass)
        }
    }

    /// Inverse moment of inertia: zero for a frozen or inertialess body.
    pub fn inv_inertia(&self) -> (r: i64)
        ensures
            r as int == inv_inertia_spec(*self),
    {
        if self.frozen || self.inertia == 0 {
            0
        } else {
            fxp::fp_div(SCALE, self.inertia)
        }
    }

    /// Marks the body immovable (or movable again).
    pub fn set_frozen(self, frozen: bool) -> (r: Body)
        ensures
            r == (Body { frozen, ..self }),
    {
        Body { frozen, ..self }
    }

    /// Assigns the body's collision group.
    pub fn set_collision_group(self, group: i32) -> (r: Body)
        ensures
            r == (Body { collision_group: group, ..self }),
    {
        Body { collision_group: group, ..self }
    }

    /// Assigns the set of groups the body never collides with.
    pub fn set_ignore_groups(self, groups: Vec<i32>) -> (r: Body)
        ensures
            r.ignore_groups@ == groups@,
            r == (Body { ignore_groups: groups, ..self }),
    {
        Body { ignore_groups: groups, ..self }
    }

    /// Assigns the body's rotation as a direction vector (cosine, sine).
    pub fn set_rotation(self, rotation: Vector2) -> (r: Body)
        ensures
            r == (Body { rotation, ..self }),
    {
        Body { rotation, ..self }
    }
}

/// The vertex list of a rectangle of the given extents.
pub open spec fn rect_vertices_spec(w: i64, h: i64) -> Seq<Vertex> {
    seq![
        Vertex { id: 0, x: 0, y: 0 },
        Vertex { id: 1, x: 0, y: h },
        Vertex { id: 2, x: w, y: h },
        Vertex { id: 3, x: w, y: 0 },
    ]
}

} // verus!
