//! The body registry: an indexed arena of bodies that every component of
//! the engine references by position.

use vstd::prelude::*;
use crate::body::Body;
use crate::vec2::Vertex;

verus! {

/// Whether two optional scalars are equal.
pub open spec fn opt_matches(a: Option<i64>, b: Option<i64>) -> bool {
    match (a, b) {
        (Some(x), Some(y)) => x == y,
        (None, None) => true,
        _ => false,
    }
}

/// Whether two bodies hold the same state, field for field.
pub open spec fn body_matches(a: Body, b: Body) -> bool {
    &&& a.form == b.form
    &&& a.position == b.position
    &&& a.rotation == b.rotation
    &&& a.origin == b.origin
    &&& opt_matches(a.radius, b.radius)
    &&& a.sides == b.sides
    &&& a.vertices@ == b.vertices@
    &&& opt_matches(a.width, b.width)
    &&& opt_matches(a.height, b.height)
    &&& a.mass == b.mass
    &&& a.inertia == b.inertia
    &&& a.frozen == b.frozen
    &&& a.velocity == b.velocity
    &&& a.restitution == b.restitution
    &&& a.angular_velocity == b.angular_velocity
    &&& a.torque == b.torque
    &&& a.static_friction == b.static_friction
    &&& a.dynamic_friction == b.dynamic_friction
    &&& a.force_buffer == b.force_buffer
    &&& a.collision_group == b.collision_group
    &&& a.ignore_groups@ == b.ignore_groups@
}

/// Whether the registry already holds a body equal to `b`.
pub open spec fn holds_body(bodies: Seq<Body>, b: Body) -> bool {
    exists|t: int| 0 <= t < bodies.len() && body_matches(#[trigger] bodies[t], b)
}

/// Compares two optional scalars.
fn opt_eq(a: Option<i64>, b: Option<i64>) -> (r: bool)
    ensures
        r == opt_matches(a, b),
{
    match (a, b) {
        (Some(x), Some(y)) => x == y,
        (None, None) => true,
        _ => false,
    }
}

/// Compares two vertex lists.
fn verts_eq(a: &Vec<Vertex>, b: &Vec<Vertex>) -> (r: bool)
    ensures
        r == (a@ == b@),
{
    if a.len() != b.len() {
        return false;
    }
    let n: usize = a.len();
    let mut i: usize = 0;
    while i < n
        invariant
            n == a@.len(),
            n == b@.len(),
            0 <= i <= n,
            forall|t: int| 0 <= t < i ==> a@[t] == b@[t],
        decreases n - i,
    {
        if a[i].id != b[i].id || a[i].x != b[i].x || a[i].y != b[i].y {
            return false;
        }
        i = i + 1;
    }
    proof {
        assert(a@ =~= b@);
    }
    true
}

/// Compares two group lists.
fn groups_eq(a: &Vec<i32>, b: &Vec<i32>) -> (r: bool)
    ensures
        r == (a@ == b@),
{
    if a.len() != b.len() {
        return false;
    }
    let n: usize = a.len();
    let mut i: usize = 0;
    while i < n
        invariant
            n == a@.len(),
            n == b@.len(),
            0 <= i <= n,
            forall|t: int| 0 <= t < i ==> a@[t] == b@[t],
        decreases n - i,
    {
        if a[i] != b[i] {
            return false;
        }
        i = i + 1;
    }
    proof {
        assert(a@ =~= b@);
    }
    true
}

/// Compares two bodies field for field.
pub fn body_eq(a: &Body, b: &Body) -> (r: bool)
    ensures
        r == body_matches(*a, *b),
{
    a.form == b.form && a.position == b.position && a.rotation == b.rotation && a.origin
        == b.origin && opt_eq(a.radius, b.radius) && a.sides == b.sides && verts_eq(
        &a.vertices,
        &b.vertices,
    ) && opt_eq(a.width, b.width) && opt_eq(a.height, b.height) && a.mass == b.mass && a.inertia
        == b.inertia && a.frozen == b.frozen && a.velocity == b.velocity && a.restitution
        == b.restitution && a.angular_velocity == b.angular_velocity && a.torque == b.torque
        && a.static_friction == b.static_friction && a.dynamic_friction == b.dynamic_friction
        && a.force_buffer == b.force_buffer && a.collision_group == b.collision_group && groups_eq(
        &a.ignore_groups,
        &b.ignore_groups,
    )
}

/// The registry after offering one body: unchanged when an equal body is
/// already held, else the body appended.
pub open spec fn added_body(bodies: Seq<Body>, b: Body) -> Seq<Body> {
    if holds_body(bodies, b) {
        bodies
    } else {
        bodies.push(b)
    }
}

/// The registry after offering each body of a list in order.
pub open spec fn added_bodies(bodies: Seq<Body>, new: Seq<Body>, k: int) -> Seq<Body>
    decreases k,
{
    if k <= 0 {
        bodies
    } else {
        added_body(added_bodies(bodies, new, k - 1), new[k - 1])
    }
}

/// The body registry.  The body table is public so that contracts can
/// speak of it; callers go through the methods.
pub struct SystemStateManager {
    pub bodies: Vec<Body>,
}

impl SystemStateManager {
    /// An empty registry.
    pub fn new() -> (r: SystemStateManager)
        ensures
            r.bodies@.len() == 0,
    {
        SystemStateManager { bodies: Vec::new() }
    }

    /// Registers a body unless an equal one is already held.
    pub fn add_body(&mut self, body: Body)
        ensures
            final(self).bodies@ == added_body(old(self).bodies@, body),
    {
        let n: usize = self.bodies.len();
        let mut t: usize = 0;
        while t < n
            invariant
                n == self.bodies@.len(),
                0 <= t <= n,
                forall|k: int| 0 <= k < t ==> !body_matches(#[trigger] self.bodies@[k], body),
            decreases n - t,
        {
            if body_eq(&self.bodies[t], &body) {
                proof {
                    assert(holds_body(self.bodies@, body));
                }
                return;
            }
            t = t + 1;
        }
        self.bodies.push(body);
    }

    /// Registers each body of the list in order, skipping those already
    /// held.
    pub fn add_bodies(&mut self, bodies: Vec<Body>)
        ensures
            final(self).bodies@ == added_bodies(old(self).bodies@, bodies@, bodies@.len() as int),
    {
        let ghost orig = bodies@;
        let n: usize = bodies.len();
        let mut rest: Vec<Body> = bodies;
        let mut k: usize = 0;
        while k < n
            invariant
                n == orig.len(),
                0 <= k <= n,
                rest@ == orig.subrange(k as int, n as int),
                self.bodies@ == added_bodies(old(self).bodies@, orig, k as int),
            decreases n - k,
        {
            let b: Body = rest.remove(0);
            proof {
                assert(b == orig[k as int]);
                assert(rest@ =~= orig.subrange(k as int + 1, n as int));
            }
            self.add_body(b);
            k = k + 1;
        }
        proof {
            assert(orig.subrange(0, n as int) =~= orig);
        }
    }

    /// The registered bodies.
    pub fn bodies(&self) -> (r: &Vec<Body>)
        ensures
            r@ == self.bodies@,
    {
        &self.bodies
    }
}

} // verus!
