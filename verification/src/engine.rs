//! The stepper: applies gravity, integrates every body, detects contacts
//! and resolves them, once per tick.

use vstd::prelude::*;
use crate::fxp::SCALE;
use crate::vec2::{Vector2, Vector2M, add_v2, scale_v2};
use crate::body::{Body, integrated_spec, well_formed};
use crate::detector::{CollisionDetector, Shared, candidate_pair, cell_ok, pairs_wf, pairs_nodup, count_colliding, pair_collides, manifold_matches, CollisionCandidatePair, GRID_SIZE};
use crate::resolver::{CollisionResolver, resolve_all_upto, manifolds_wf};

verus! {

/// The engine: gravity, a detector scaled to the window, and a resolver.
pub struct Engine {
    pub gravity: Vector2M,
    pub detector: CollisionDetector,
    pub resolver: CollisionResolver,
}

/// A body with one tick of gravity added to its velocity; frozen bodies
/// are left alone.
pub open spec fn gravity_applied(g: Vector2M, b: Body) -> Body {
    if b.frozen {
        b
    } else {
        Body {
            velocity: add_v2(b.velocity, scale_v2(Vector2 { x: g.x, y: g.y }, g.m as int)),
            ..b
        }
    }
}

/// Every body after the gravity pass.
pub open spec fn gravity_all(g: Vector2M, bodies: Seq<Body>) -> Seq<Body> {
    Seq::new(bodies.len(), |i: int| gravity_applied(g, bodies[i]))
}

/// Every body after one integration step.
pub open spec fn update_all(bodies: Seq<Body>, dt: int) -> Seq<Body> {
    Seq::new(
        bodies.len(),
        |i: int|
            if bodies[i].frozen {
                bodies[i]
            } else {
                integrated_spec(bodies[i], dt)
            },
    )
}

/// The body table after the force and integration passes of one step.
pub open spec fn step_mid(g: Vector2M, bodies: Seq<Body>, dt: int) -> Seq<Body> {
    update_all(gravity_all(g, bodies), dt)
}

impl Engine {
    /// An engine over the given window extent, with downward gravity.
    pub fn new(window_size: Vector2) -> (r: Engine)
        ensures
            r.gravity == (Vector2M { x: 0, y: SCALE, m: 9810 }),
            r.detector.window_size == window_size,
    {
        Engine {
            gravity: Vector2M { x: 0, y: SCALE, m: 9810 },
            detector: CollisionDetector::new(window_size),
            resolver: CollisionResolver::new(),
        }
    }

    /// Adds one tick of gravity to a non-frozen body's velocity.
    fn resolve_gravity(&self, body: &mut Body)
        ensures
            *final(body) == gravity_applied(self.gravity, *old(body)),
    {
        if body.frozen {
            return;
        }
        let g: Vector2 = self.gravity.to_vec2().scale(self.gravity.m);
        body.velocity = body.velocity.add(g);
    }

    /// One full tick: gravity, integration, detection, resolution.  The
    /// bodies end in the state given by resolving every detected manifold
    /// on the integrated table, and the returned snapshot publishes the
    /// grid, the candidate pairs and the manifolds of this tick.
    pub fn step(&self, bodies: &mut Vec<Body>, dt: i64) -> (r: Shared)
        requires
            forall|k: int| 0 <= k < old(bodies)@.len() ==> well_formed(#[trigger] old(bodies)@[k]),
        ensures
            ({
                let mid = step_mid(self.gravity, old(bodies)@, dt as int);
                &&& r.window_size == self.detector.window_size
                &&& pairs_wf(mid, r.broad_phase_pairs@)
                &&& pairs_nodup(r.broad_phase_pairs@)
                &&& forall|a: usize, b: usize|
                    #[trigger] r.broad_phase_pairs@.contains(CollisionCandidatePair { a, b })
                        <==> (a < b && b < mid.len() && candidate_pair(
                        mid,
                        self.detector.window_size,
                        a as int,
                        b as int,
                    ))
                &&& r.collision_grid@.len() == (GRID_SIZE * GRID_SIZE) as int
                &&& forall|c: int|
                    0 <= c < r.collision_grid@.len() ==> cell_ok(
                        mid,
                        self.detector.window_size,
                        #[trigger] r.collision_grid@[c]@,
                        c,
                    )
                &&& manifolds_wf(r.narrow_phase_pairs@, mid.len() as int)
                &&& r.narrow_phase_pairs@.len() == count_colliding(
                    mid,
                    r.broad_phase_pairs@,
                    r.broad_phase_pairs@.len() as int,
                )
                &&& forall|t: int|
                    0 <= t < r.broad_phase_pairs@.len() && pair_collides(
                        mid,
                        #[trigger] r.broad_phase_pairs@[t],
                    ) ==> manifold_matches(
                        mid,
                        r.broad_phase_pairs@[t],
                        r.narrow_phase_pairs@[count_colliding(mid, r.broad_phase_pairs@, t)],
                    )
                &&& final(bodies)@ == resolve_all_upto(
                    mid,
                    r.narrow_phase_pairs@,
                    r.narrow_phase_pairs@.len() as int,
                )
            }),
            final(bodies)@.len() == old(bodies)@.len(),
            forall|k: int|
                0 <= k < old(bodies)@.len() && old(bodies)@[k].frozen ==> final(bodies)@[k]
                    == old(bodies)@[k],
    {
        let n: usize = bodies.len();

        // Gravity pass.
        let mut k: usize = 0;
        while k < n
            invariant
                n == bodies@.len(),
                n == old(bodies)@.len(),
                0 <= k <= n,
                forall|t: int|
                    0 <= t < k ==> bodies@[t] == gravity_applied(
                        self.gravity,
                        #[trigger] old(bodies)@[t],
                    ),
                forall|t: int| k <= t < n ==> bodies@[t] == #[trigger] old(bodies)@[t],
            decreases n - k,
        {
            let mut b: Body = bodies.remove(k);
            self.resolve_gravity(&mut b);
            bodies.insert(k, b);
            k = k + 1;
        }
        let ghost after_gravity = bodies@;
        proof {
            assert(after_gravity =~= gravity_all(self.gravity, old(bodies)@));
        }

        // Integration pass.
        let mut k: usize = 0;
        while k < n
            invariant
                n == bodies@.len(),
                n == after_gravity.len(),
                0 <= k <= n,
                forall|t: int|
                    0 <= t < k ==> bodies@[t] == (if after_gravity[t].frozen {
                        after_gravity[t]
                    } else {
                        integrated_spec(#[trigger] after_gravity[t], dt as int)
                    }),
                forall|t: int| k <= t < n ==> bodies@[t] == #[trigger] after_gravity[t],
            decreases n - k,
        {
            let mut b: Body = bodies.remove(k);
            b.update(dt);
            bodies.insert(k, b);
            k = k + 1;
        }
        let ghost mid = bodies@;
        proof {
            assert(mid =~= update_all(after_gravity, dt as int));
            assert(mid == step_mid(self.gravity, old(bodies)@, dt as int));
            assert forall|t: int| 0 <= t < mid.len() implies well_formed(#[trigger] mid[t]) by {
                assert(well_formed(old(bodies)@[t]));
            }
        }

        // Detection and resolution.
        let shared: Shared = self.detector.evaluate(bodies);
        self.resolver.resolve(bodies, &shared.narrow_phase_pairs);
        proof {
            assert forall|k2: int|
                0 <= k2 < old(bodies)@.len() && old(bodies)@[k2].frozen implies bodies@[k2] == old(
                bodies,
            )@[k2] by {
                assert(mid[k2] == old(bodies)@[k2]);
            }
        }
        shared
    }
}

} // verus!
