//! Collision detection: grid broad phase and separating-axis narrow phase.

use vstd::prelude::*;
use crate::fxp::{tdiv, sub_sat};
use crate::fxp;
use crate::vec2::{Vector2, norm_v2, dot_fp, sub_v2, p_dist_spec, almost_eq_v2};
use crate::body::{Body, aabb_spec, axes_spec, world_vertex, well_formed, vertex_in_box};

verus! {

/// Cells per grid axis.
pub const GRID_SIZE: usize = 20;

/// An unordered pair of body indices, stored with the smaller index first.
#[derive(Clone, Copy, PartialEq, Eq, Structural, Debug)]
pub struct CollisionCandidatePair {
    pub a: usize,
    pub b: usize,
}

/// The extent of a body's projection onto an axis.
#[derive(Clone, Copy, PartialEq, Eq, Structural, Debug)]
pub struct Projection {
    pub min: i64,
    pub max: i64,
}

/// A contact manifold: the pair, the collision normal, the penetration
/// depth along it, and one or two world-space contact points.
#[derive(Clone, Debug)]
pub struct CollisionResult {
    pub bodies: CollisionCandidatePair,
    pub normal: Vector2,
    pub overlap: i64,
    pub contacts: Vec<Vector2>,
}

/// Diagnostic snapshot of one detection pass, for a renderer to consume:
/// grid occupancy (row-major cells of body indices), the broad-phase
/// candidate pairs, and the narrow-phase manifolds.
#[derive(Debug)]
pub struct Shared {
    pub window_size: Vector2,
    pub collision_grid: Vec<Vec<usize>>,
    pub broad_phase_pairs: Vec<CollisionCandidatePair>,
    pub narrow_phase_pairs: Vec<CollisionResult>,
}

/// Guarded cell-coordinate division: zero when the cell extent is zero,
/// saturated to the `i64` range.
pub open spec fn cell_div(p: int, b: int) -> int {
    if b == 0 {
        0
    } else {
        crate::fxp::sat64(tdiv(p, b))
    }
}

/// The smaller of two integers.
pub open spec fn imin(a: int, b: int) -> int {
    if a < b {
        a
    } else {
        b
    }
}

/// The larger of two integers.
pub open spec fn imax(a: int, b: int) -> int {
    if a < b {
        b
    } else {
        a
    }
}

/// Width of one grid cell for the given window extent.
pub open spec fn cell_extent_x(window: Vector2) -> int {
    tdiv(window.x as int, GRID_SIZE as int)
}

/// Height of one grid cell for the given window extent.
pub open spec fn cell_extent_y(window: Vector2) -> int {
    tdiv(window.y as int, GRID_SIZE as int)
}

/// Smallest cell column any bounding-box corner of `b` falls in.
pub open spec fn cmin_x(b: Body, window: Vector2) -> int {
    let pts = aabb_spec(b);
    let e = cell_extent_x(window);
    imin(
        imin(cell_div(pts[0].x as int, e), cell_div(pts[1].x as int, e)),
        imin(cell_div(pts[2].x as int, e), cell_div(pts[3].x as int, e)),
    )
}

/// Largest cell column any bounding-box corner of `b` falls in.
pub open spec fn cmax_x(b: Body, window: Vector2) -> int {
    let pts = aabb_spec(b);
    let e = cell_extent_x(window);
    imax(
        imax(cell_div(pts[0].x as int, e), cell_div(pts[1].x as int, e)),
        imax(cell_div(pts[2].x as int, e), cell_div(pts[3].x as int, e)),
    )
}

/// Smallest cell row any bounding-box corner of `b` falls in.
pub open spec fn cmin_y(b: Body, window: Vector2) -> int {
    let pts = aabb_spec(b);
    let e = cell_extent_y(window);
    imin(
        imin(cell_div(pts[0].y as int, e), cell_div(pts[1].y as int, e)),
        imin(cell_div(pts[2].y as int, e), cell_div(pts[3].y as int, e)),
    )
}

/// Largest cell row any bounding-box corner of `b` falls in.
pub open spec fn cmax_y(b: Body, window: Vector2) -> int {
    let pts = aabb_spec(b);
    let e = cell_extent_y(window);
    imax(
        imax(cell_div(pts[0].y as int, e), cell_div(pts[1].y as int, e)),
        imax(cell_div(pts[2].y as int, e), cell_div(pts[3].y as int, e)),
    )
}

/// Whether body `b` is marked in grid cell `(i, j)` (row `i`, column `j`).
pub open spec fn body_in_cell(b: Body, window: Vector2, i: int, j: int) -> bool {
    &&& cmin_y(b, window) <= i <= cmax_y(b, window)
    &&& cmin_x(b, window) <= j <= cmax_x(b, window)
    &&& 0 <= i < GRID_SIZE as int
    &&& 0 <= j < GRID_SIZE as int
}

/// Whether part of the body's cell span lies outside the grid.
pub open spec fn body_oob(b: Body, window: Vector2) -> bool {
    ||| cmin_x(b, window) < 0
    ||| cmin_y(b, window) < 0
    ||| cmax_x(b, window) >= GRID_SIZE as int
    ||| cmax_y(b, window) >= GRID_SIZE as int
}

/// Whether either body's ignore set names the other's collision group.
pub open spec fn mutually_ignored(b1: Body, b2: Body) -> bool {
    b1.ignore_groups@.contains(b2.collision_group) || b2.ignore_groups@.contains(
        b1.collision_group,
    )
}

/// Whether the two bodies are marked in a common grid cell.
pub open spec fn shares_cell(b1: Body, b2: Body, window: Vector2) -> bool {
    exists|i: int, j: int|
        #[trigger] body_in_cell(b1, window, i, j) && #[trigger] body_in_cell(b2, window, i, j)
}

/// Whether the broad phase owes a candidate pair for indices `a` and `b`:
/// distinct bodies that either share a grid cell or are both (partly) out
/// of bounds, and do not ignore each other's collision group.
pub open spec fn candidate_pair(bodies: Seq<Body>, window: Vector2, a: int, b: int) -> bool {
    &&& 0 <= a < bodies.len()
    &&& 0 <= b < bodies.len()
    &&& a != b
    &&& shares_cell(bodies[a], bodies[b], window) || (body_oob(bodies[a], window) && body_oob(
        bodies[b],
        window,
    ))
    &&& !mutually_ignored(bodies[a], bodies[b])
}

/// The cell span of one body, in grid coordinates.
#[derive(Clone, Copy, PartialEq, Eq, Structural, Debug)]
struct CellRange {
    min_x: i64,
    max_x: i64,
    min_y: i64,
    max_y: i64,
}

/// Guarded cell-coordinate division.
fn cell_div_exec(p: i64, b: i64) -> (r: i64)
    ensures
        r as int == cell_div(p as int, b as int),
{
    if b == 0 {
        return 0;
    }
    fxp::div_count(p, b)
}

/// The smaller of two scalars.
fn imin_exec(a: i64, b: i64) -> (r: i64)
    ensures
        r as int == imin(a as int, b as int),
{
    if a < b {
        a
    } else {
        b
    }
}

/// The larger of two scalars.
fn imax_exec(a: i64, b: i64) -> (r: i64)
    ensures
        r as int == imax(a as int, b as int),
{
    if a < b {
        b
    } else {
        a
    }
}

impl CellRange {
    /// The cell span of `b`'s bounding box.
    fn of_body(b: &Body, window: Vector2) -> (r: CellRange)
        requires
            b.radius.is_some() || (b.width.is_some() && b.height.is_some()),
        ensures
            r.min_x as int == cmin_x(*b, window),
            r.max_x as int == cmax_x(*b, window),
            r.min_y as int == cmin_y(*b, window),
            r.max_y as int == cmax_y(*b, window),
    {
        let aabb = b.aabb();
        let ex: i64 = fxp::div_count(window.x, GRID_SIZE as i64);
        let ey: i64 = fxp::div_count(window.y, GRID_SIZE as i64);
        proof {
            assert(vstd::math::abs(window.x as int) / (GRID_SIZE as nat) <= vstd::math::abs(
                window.x as int,
            )) by (nonlinear_arith);
            assert(vstd::math::abs(window.y as int) / (GRID_SIZE as nat) <= vstd::math::abs(
                window.y as int,
            )) by (nonlinear_arith);
        }
        let c0x: i64 = cell_div_exec(aabb.points[0].x, ex);
        let c1x: i64 = cell_div_exec(aabb.points[1].x, ex);
        let c2x: i64 = cell_div_exec(aabb.points[2].x, ex);
        let c3x: i64 = cell_div_exec(aabb.points[3].x, ex);
        let c0y: i64 = cell_div_exec(aabb.points[0].y, ey);
        let c1y: i64 = cell_div_exec(aabb.points[1].y, ey);
        let c2y: i64 = cell_div_exec(aabb.points[2].y, ey);
        let c3y: i64 = cell_div_exec(aabb.points[3].y, ey);
        CellRange {
            min_x: imin_exec(imin_exec(c0x, c1x), imin_exec(c2x, c3x)),
            max_x: imax_exec(imax_exec(c0x, c1x), imax_exec(c2x, c3x)),
            min_y: imin_exec(imin_exec(c0y, c1y), imin_exec(c2y, c3y)),
            max_y: imax_exec(imax_exec(c0y, c1y), imax_exec(c2y, c3y)),
        }
    }

    /// Whether cell `(i, j)` lies in this span.
    spec fn covers(self, i: int, j: int) -> bool {
        &&& self.min_y as int <= i <= self.max_y as int
        &&& self.min_x as int <= j <= self.max_x as int
        &&& 0 <= i < GRID_SIZE as int
        &&& 0 <= j < GRID_SIZE as int
    }
}


/// Whether a candidate pair `(a, b)` has already been owed by one of the
/// first `cells` grid cells in row-major order.
pub open spec fn emitted_up_to(
    bodies: Seq<Body>,
    window: Vector2,
    a: int,
    b: int,
    cells: int,
) -> bool {
    exists|i: int, j: int|
        #[trigger] body_in_cell(bodies[a], window, i, j) && #[trigger] body_in_cell(
            bodies[b],
            window,
            i,
            j,
        ) && i * GRID_SIZE as int + j < cells
}

/// After every cell has been scanned, the owed pairs are exactly those
/// sharing a cell.
pub proof fn lemma_emitted_full(bodies: Seq<Body>, window: Vector2, a: int, b: int)
    requires
        0 <= a < bodies.len(),
        0 <= b < bodies.len(),
    ensures
        emitted_up_to(bodies, window, a, b, (GRID_SIZE * GRID_SIZE) as int) == shares_cell(
            bodies[a],
            bodies[b],
            window,
        ),
{
    if shares_cell(bodies[a], bodies[b], window) {
        let (i, j) = choose|i: int, j: int|
            #[trigger] body_in_cell(bodies[a], window, i, j) && #[trigger] body_in_cell(
                bodies[b],
                window,
                i,
                j,
            );
        assert(i * GRID_SIZE as int + j < (GRID_SIZE * GRID_SIZE) as int) by (nonlinear_arith)
            requires
                0 <= i < GRID_SIZE as int,
                0 <= j < GRID_SIZE as int;
    }
}

/// Well-formedness of one grid cell `c` (row-major): its entries are
/// strictly increasing body indices, each marked in the cell, and every
/// body marked in the cell occurs.
pub open spec fn cell_ok(bodies: Seq<Body>, window: Vector2, cell: Seq<usize>, c: int) -> bool {
    &&& forall|p: int, q: int| 0 <= p < q < cell.len() ==> #[trigger] cell[p] < #[trigger] cell[q]
    &&& forall|t: int|
        0 <= t < cell.len() ==> 0 <= #[trigger] cell[t] < bodies.len() && body_in_cell(
            bodies[cell[t] as int],
            window,
            c / GRID_SIZE as int,
            c % GRID_SIZE as int,
        )
    &&& forall|k: usize|
        k < bodies.len() && body_in_cell(
            bodies[k as int],
            window,
            c / GRID_SIZE as int,
            c % GRID_SIZE as int,
        ) ==> #[trigger] cell.contains(k)
}

/// Whether the scan of `cell` has already visited an index pair holding the
/// bodies `a` and `b`, with the scan standing at positions `(ai, bi)`.
pub open spec fn scanned_pair(cell: Seq<usize>, ai: int, bi: int, a: usize, b: usize) -> bool {
    exists|x: int, y: int|
        0 <= x < y < cell.len() && (x < ai || (x == ai && y < bi)) && #[trigger] cell[x] == a
            && #[trigger] cell[y] == b
}

/// A scan that stands at the start has visited nothing.
proof fn lemma_scanned_empty(cell: Seq<usize>, a: usize, b: usize)
    ensures
        !scanned_pair(cell, 0, 1, a, b),
{
    if scanned_pair(cell, 0, 1, a, b) {
        let (x, y) = choose|x: int, y: int|
            0 <= x < y < cell.len() && (x < 0 || (x == 0 && y < 1)) && #[trigger] cell[x] == a
                && #[trigger] cell[y] == b;
    }
}

/// Finishing the inner scan row `ai` reaches the same visited set as
/// standing at the start of row `ai + 1`.
proof fn lemma_scanned_shift(cell: Seq<usize>, ai: int, a: usize, b: usize)
    ensures
        scanned_pair(cell, ai, cell.len() as int, a, b) == scanned_pair(
            cell,
            ai + 1,
            ai + 2,
            a,
            b,
        ),
{
    if scanned_pair(cell, ai, cell.len() as int, a, b) {
        let (x, y) = choose|x: int, y: int|
            0 <= x < y < cell.len() && (x < ai || (x == ai && y < cell.len() as int))
                && #[trigger] cell[x] == a && #[trigger] cell[y] == b;
        assert(x < ai + 1);
        assert(scanned_pair(cell, ai + 1, ai + 2, a, b));
    }
    if scanned_pair(cell, ai + 1, ai + 2, a, b) {
        let (x, y) = choose|x: int, y: int|
            0 <= x < y < cell.len() && (x < ai + 1 || (x == ai + 1 && y < ai + 2))
                && #[trigger] cell[x] == a && #[trigger] cell[y] == b;
        assert(scanned_pair(cell, ai, cell.len() as int, a, b));
    }
}

/// A finished scan has visited every ordered index pair.
proof fn lemma_scanned_full(cell: Seq<usize>, a: usize, b: usize)
    ensures
        scanned_pair(cell, cell.len() as int, cell.len() as int + 1, a, b) == (exists|
            x: int,
            y: int,
        |
            0 <= x < y < cell.len() && #[trigger] cell[x] == a && #[trigger] cell[y] == b),
{
}

/// Whether a group list holds a group.
fn contains_group(groups: &Vec<i32>, g: i32) -> (r: bool)
    ensures
        r == groups@.contains(g),
{
    let n: usize = groups.len();
    let mut t: usize = 0;
    while t < n
        invariant
            n == groups@.len(),
            0 <= t <= n,
            forall|k: int| 0 <= k < t ==> groups@[k] != g,
        decreases n - t,
    {
        if groups[t] == g {
            return true;
        }
        t = t + 1;
    }
    false
}

/// Whether a pair list already holds the pair `(a, b)`.
fn pairs_contains(pairs: &Vec<CollisionCandidatePair>, a: usize, b: usize) -> (r: bool)
    ensures
        r == pairs@.contains(CollisionCandidatePair { a, b }),
{
    let n: usize = pairs.len();
    let mut t: usize = 0;
    while t < n
        invariant
            n == pairs@.len(),
            0 <= t <= n,
            forall|k: int| 0 <= k < t ==> pairs@[k] != (CollisionCandidatePair { a, b }),
        decreases n - t,
    {
        if pairs[t].a == a && pairs[t].b == b {
            return true;
        }
        t = t + 1;
    }
    false
}

/// Whether bodies at indices `a` and `b` ignore each other's group.
fn ignored_exec(bodies: &Vec<Body>, a: usize, b: usize) -> (r: bool)
    requires
        a < bodies@.len(),
        b < bodies@.len(),
    ensures
        r == mutually_ignored(bodies@[a as int], bodies@[b as int]),
{
    contains_group(&bodies[a].ignore_groups, bodies[b].collision_group) || contains_group(
        &bodies[b].ignore_groups,
        bodies[a].collision_group,
    )
}

/// Whether `ranges` records the cell span of every body.
spec fn ranges_ok(bodies: Seq<Body>, window: Vector2, ranges: Seq<CellRange>) -> bool {
    &&& ranges.len() == bodies.len()
    &&& forall|t: int|
        0 <= t < ranges.len() ==> {
            &&& (#[trigger] ranges[t]).min_x as int == cmin_x(bodies[t], window)
            &&& ranges[t].max_x as int == cmax_x(bodies[t], window)
            &&& ranges[t].min_y as int == cmin_y(bodies[t], window)
            &&& ranges[t].max_y as int == cmax_y(bodies[t], window)
        }
}

/// The cell span of every body.
fn compute_ranges(bodies: &Vec<Body>, window: Vector2) -> (r: Vec<CellRange>)
    requires
        forall|k: int| 0 <= k < bodies@.len() ==> well_formed(#[trigger] bodies@[k]),
    ensures
        ranges_ok(bodies@, window, r@),
{
    let n: usize = bodies.len();
    let mut ranges: Vec<CellRange> = Vec::new();
    let mut k: usize = 0;
    while k < n
        invariant
            n == bodies@.len(),
            forall|t: int| 0 <= t < n ==> well_formed(#[trigger] bodies@[t]),
            0 <= k <= n,
            ranges@.len() == k as int,
            forall|t: int|
                0 <= t < k ==> {
                    &&& (#[trigger] ranges@[t]).min_x as int == cmin_x(bodies@[t], window)
                    &&& ranges@[t].max_x as int == cmax_x(bodies@[t], window)
                    &&& ranges@[t].min_y as int == cmin_y(bodies@[t], window)
                    &&& ranges@[t].max_y as int == cmax_y(bodies@[t], window)
                },
        decreases n - k,
    {
        ranges.push(CellRange::of_body(&bodies[k], window));
        k = k + 1;
    }
    ranges
}

/// Soundness and completeness of the out-of-bounds list.
pub open spec fn oob_ok(bodies: Seq<Body>, window: Vector2, oob: Seq<usize>) -> bool {
    &&& forall|t: int|
        0 <= t < oob.len() ==> 0 <= #[trigger] oob[t] < bodies.len() && body_oob(
            bodies[oob[t] as int],
            window,
        )
    &&& forall|m: usize|
        m < bodies.len() && body_oob(bodies[m as int], window) ==> #[trigger] oob.contains(m)
    &&& forall|p: int, q: int| 0 <= p < q < oob.len() ==> #[trigger] oob[p] < #[trigger] oob[q]
}

/// The bodies whose cell span leaves the grid, in index order.
fn compute_oob(bodies: &Vec<Body>, ranges: &Vec<CellRange>, window: Vector2) -> (r: Vec<usize>)
    requires
        ranges_ok(bodies@, window, ranges@),
    ensures
        oob_ok(bodies@, window, r@),
{
    let n: usize = bodies.len();
    let mut oob: Vec<usize> = Vec::new();
    let mut k: usize = 0;
    while k < n
        invariant
            n == bodies@.len(),
            ranges_ok(bodies@, window, ranges@),
            0 <= k <= n,
            forall|t: int|
                0 <= t < oob@.len() ==> 0 <= #[trigger] oob@[t] < k && body_oob(
                    bodies@[oob@[t] as int],
                    window,
                ),
            forall|m: usize|
                m < k && body_oob(bodies@[m as int], window) ==> #[trigger] oob@.contains(m),
            forall|p: int, q: int| 0 <= p < q < oob@.len() ==> #[trigger] oob@[p] < #[trigger] oob@[q],
        decreases n - k,
    {
        let rk: CellRange = ranges[k];
        let oobk: bool = rk.min_x < 0 || rk.min_y < 0 || rk.max_x >= GRID_SIZE as i64 || rk.max_y
            >= GRID_SIZE as i64;
        proof {
            assert(ranges@[k as int].min_x as int == cmin_x(bodies@[k as int], window));
            assert(oobk == body_oob(bodies@[k as int], window));
        }
        let ghost old_oob = oob@;
        if oobk {
            oob.push(k);
        }
        proof {
            assert forall|m: usize|
                m < k + 1 && body_oob(bodies@[m as int], window) implies #[trigger] oob@.contains(
                m,
            ) by {
                if m < k {
                    assert(old_oob.contains(m));
                    let t = choose|t: int| 0 <= t < old_oob.len() && old_oob[t] == m;
                    assert(oob@[t] == m);
                } else {
                    assert(m == k);
                    assert(oob@[oob@.len() - 1] == m);
                }
            }
        }
        k = k + 1;
    }
    oob
}

/// Row and column of a row-major cell index lie inside the grid.
proof fn lemma_divmod_bounds(c: int)
    requires
        0 <= c < (GRID_SIZE * GRID_SIZE) as int,
    ensures
        0 <= c / (GRID_SIZE as int) < GRID_SIZE as int,
        0 <= c % (GRID_SIZE as int) < GRID_SIZE as int,
{
    assert(0 <= c / 20 < 20 && 0 <= c % 20 < 20) by (nonlinear_arith)
        requires
            0 <= c < 400;
}

/// The grid occupancy: one cell per row-major index, each holding the
/// bodies whose span covers it, in index order.
fn build_grid(bodies: &Vec<Body>, ranges: &Vec<CellRange>, window: Vector2) -> (r: Vec<
    Vec<usize>,
>)
    requires
        ranges_ok(bodies@, window, ranges@),
    ensures
        r@.len() == (GRID_SIZE * GRID_SIZE) as int,
        forall|c: int| 0 <= c < r@.len() ==> cell_ok(bodies@, window, #[trigger] r@[c]@, c),
{
    let n: usize = bodies.len();
    let mut grid: Vec<Vec<usize>> = Vec::new();
    let mut c: usize = 0;
    while c < GRID_SIZE * GRID_SIZE
        invariant
            n == bodies@.len(),
            ranges_ok(bodies@, window, ranges@),
            0 <= c <= (GRID_SIZE * GRID_SIZE) as int,
            grid@.len() == c as int,
            forall|d: int| 0 <= d < c ==> cell_ok(bodies@, window, #[trigger] grid@[d]@, d),
        decreases (GRID_SIZE * GRID_SIZE) as int - c,
    {
        let i: usize = c / GRID_SIZE;
        let j: usize = c % GRID_SIZE;
        let mut cell: Vec<usize> = Vec::new();
        let mut k: usize = 0;
        while k < n
            invariant
                n == bodies@.len(),
                ranges_ok(bodies@, window, ranges@),
                c < GRID_SIZE * GRID_SIZE,
                i == c as int / GRID_SIZE as int,
                j == c as int % GRID_SIZE as int,
                0 <= k <= n,
                forall|t: int|
                    0 <= t < cell@.len() ==> 0 <= #[trigger] cell@[t] < k && body_in_cell(
                        bodies@[cell@[t] as int],
                        window,
                        i as int,
                        j as int,
                    ),
                forall|m: usize|
                    m < k && body_in_cell(bodies@[m as int], window, i as int, j as int)
                        ==> #[trigger] cell@.contains(m),
                forall|p: int, q: int|
                    0 <= p < q < cell@.len() ==> #[trigger] cell@[p] < #[trigger] cell@[q],
            decreases n - k,
        {
            let rk: CellRange = ranges[k];
            let ink: bool = rk.min_y <= i as i64 && i as i64 <= rk.max_y && rk.min_x <= j as i64
                && j as i64 <= rk.max_x;
            proof {
                assert(ranges@[k as int].min_x as int == cmin_x(bodies@[k as int], window));
                lemma_divmod_bounds(c as int);
                assert(ink == body_in_cell(bodies@[k as int], window, i as int, j as int));
            }
            let ghost old_cell = cell@;
            if ink {
                cell.push(k);
            }
            proof {
                assert forall|m: usize|
                    m < k + 1 && body_in_cell(
                        bodies@[m as int],
                        window,
                        i as int,
                        j as int,
                    ) implies #[trigger] cell@.contains(m) by {
                    if m < k {
                        assert(old_cell.contains(m));
                        let t = choose|t: int| 0 <= t < old_cell.len() && old_cell[t] == m;
                        assert(cell@[t] == m);
                    } else {
                        assert(m == k);
                        assert(cell@[cell@.len() - 1] == m);
                    }
                }
            }
            k = k + 1;
        }
        grid.push(cell);
        c = c + 1;
    }
    grid
}

/// Every stored pair is normalized (`a < b`) and in range.
pub open spec fn pairs_wf(bodies: Seq<Body>, pairs: Seq<CollisionCandidatePair>) -> bool {
    forall|t: int|
        0 <= t < pairs.len() ==> #[trigger] pairs[t].a < pairs[t].b && pairs[t].b < bodies.len()
}

/// No pair occurs twice.
pub open spec fn pairs_nodup(pairs: Seq<CollisionCandidatePair>) -> bool {
    forall|t: int, u: int| 0 <= t < u < pairs.len() ==> pairs[t] != pairs[u]
}

/// The pair list holds exactly the non-ignored normalized pairs with
/// `cond` true.
pub open spec fn pairs_char(
    bodies: Seq<Body>,
    pairs: Seq<CollisionCandidatePair>,
    cond: spec_fn(int, int) -> bool,
) -> bool {
    forall|a: usize, b: usize|
        #[trigger] pairs.contains(CollisionCandidatePair { a, b }) <==> (a < b && b < bodies.len()
            && cond(a as int, b as int) && !mutually_ignored(bodies[a as int], bodies[b as int]))
}

/// The running characterization of the pair list: it holds exactly the
/// non-ignored normalized pairs with `cond` true, each once.
pub open spec fn pairs_ok(
    bodies: Seq<Body>,
    pairs: Seq<CollisionCandidatePair>,
    cond: spec_fn(int, int) -> bool,
) -> bool {
    &&& pairs_wf(bodies, pairs)
    &&& pairs_nodup(pairs)
    &&& pairs_char(bodies, pairs, cond)
}

/// Scans one index list and appends each yet-unseen non-ignored normalized
/// pair of its entries, extending the characterization `cond` by joint
/// membership of this list.
fn scan_index_list(
    bodies: &Vec<Body>,
    list: &Vec<usize>,
    pairs: Vec<CollisionCandidatePair>,
    Ghost(cond): Ghost<spec_fn(int, int) -> bool>,
) -> (r: Vec<CollisionCandidatePair>)
    requires
        forall|t: int| 0 <= t < list@.len() ==> #[trigger] list@[t] < bodies@.len(),
        forall|p: int, q: int| 0 <= p < q < list@.len() ==> #[trigger] list@[p] < #[trigger] list@[q],
        pairs_ok(bodies@, pairs@, cond),
    ensures
        pairs_ok(
            bodies@,
            r@,
            |a: int, b: int|
                cond(a, b) || (exists|x: int, y: int|
                    0 <= x < y < list@.len() && #[trigger] list@[x] == a && #[trigger] list@[y]
                        == b),
        ),
{
    let n: usize = bodies.len();
    let len: usize = list.len();
    let mut pairs: Vec<CollisionCandidatePair> = pairs;
    let mut ai: usize = 0;
    proof {
        assert forall|a: usize, b: usize| true implies !scanned_pair(list@, 0, 1, a, b) by {
            lemma_scanned_empty(list@, a, b);
        }
    }
    while ai < len
        invariant
            n == bodies@.len(),
            len == list@.len(),
            forall|t: int| 0 <= t < list@.len() ==> #[trigger] list@[t] < n,
            forall|p: int, q: int|
                0 <= p < q < list@.len() ==> #[trigger] list@[p] < #[trigger] list@[q],
            0 <= ai <= len,
            pairs_wf(bodies@, pairs@),
            pairs_nodup(pairs@),
            forall|a: usize, b: usize|
                #[trigger] pairs@.contains(CollisionCandidatePair { a, b }) <==> (a < b && b < n
                    && (cond(a as int, b as int) || scanned_pair(
                    list@,
                    ai as int,
                    ai as int + 1,
                    a,
                    b,
                )) && !mutually_ignored(bodies@[a as int], bodies@[b as int])),
        decreases len - ai,
    {
        let mut bi: usize = ai + 1;
        while bi < len
            invariant
                n == bodies@.len(),
                len == list@.len(),
                forall|t: int| 0 <= t < list@.len() ==> #[trigger] list@[t] < n,
                forall|p: int, q: int|
                    0 <= p < q < list@.len() ==> #[trigger] list@[p] < #[trigger] list@[q],
                ai < len,
                ai < bi <= len,
                pairs_wf(bodies@, pairs@),
                pairs_nodup(pairs@),
                forall|a: usize, b: usize|
                    #[trigger] pairs@.contains(CollisionCandidatePair { a, b }) <==> (a < b && b
                        < n && (cond(a as int, b as int) || scanned_pair(
                        list@,
                        ai as int,
                        bi as int,
                        a,
                        b,
                    )) && !mutually_ignored(bodies@[a as int], bodies@[b as int])),
            decreases len - bi,
        {
            let a: usize = list[ai];
            let b: usize = list[bi];
            let ghost old_pairs = pairs@;
            if !ignored_exec(bodies, a, b) && !pairs_contains(&pairs, a, b) {
                pairs.push(CollisionCandidatePair { a, b });
            }
            proof {
                assert(list@[ai as int] == a && list@[bi as int] == b);
                assert(a < b);
                let ghost bi1 = bi as int + 1;
                assert forall|x: usize, y: usize|
                    #[trigger] pairs@.contains(CollisionCandidatePair { a: x, b: y }) implies (x
                    < y && y < n && (cond(x as int, y as int) || scanned_pair(
                    list@,
                    ai as int,
                    bi1,
                    x,
                    y,
                )) && !mutually_ignored(bodies@[x as int], bodies@[y as int])) by {
                    let p = CollisionCandidatePair { a: x, b: y };
                    if old_pairs.contains(p) {
                        if scanned_pair(list@, ai as int, bi as int, x, y) {
                            let (sx, sy) = choose|sx: int, sy: int|
                                0 <= sx < sy < list@.len() && (sx < ai as int || (sx == ai as int
                                    && sy < bi as int)) && #[trigger] list@[sx] == x
                                    && #[trigger] list@[sy] == y;
                            assert(scanned_pair(list@, ai as int, bi1, x, y));
                        }
                    } else {
                        assert(pairs@.len() == old_pairs.len() + 1);
                        assert(p == pairs@[pairs@.len() - 1]);
                        assert(x == a && y == b);
                        assert(scanned_pair(list@, ai as int, bi1, x, y));
                    }
                }
                assert forall|x: usize, y: usize|
                    x < y && y < n && (cond(x as int, y as int) || scanned_pair(
                        list@,
                        ai as int,
                        bi1,
                        x,
                        y,
                    )) && !mutually_ignored(
                    bodies@[x as int],
                    bodies@[y as int],
                ) implies #[trigger] pairs@.contains(CollisionCandidatePair { a: x, b: y }) by {
                    let p = CollisionCandidatePair { a: x, b: y };
                    if scanned_pair(list@, ai as int, bi1, x, y) && !scanned_pair(
                        list@,
                        ai as int,
                        bi as int,
                        x,
                        y,
                    ) && !cond(x as int, y as int) {
                        let (sx, sy) = choose|sx: int, sy: int|
                            0 <= sx < sy < list@.len() && (sx < ai as int || (sx == ai as int && sy
                                < bi1)) && #[trigger] list@[sx] == x && #[trigger] list@[sy] == y;
                        assert(sx == ai as int && sy == bi as int);
                        assert(x == a && y == b);
                        if old_pairs.contains(p) {
                            let t = choose|t: int| 0 <= t < old_pairs.len() && old_pairs[t] == p;
                            assert(pairs@[t] == p);
                        } else {
                            assert(pairs@[pairs@.len() - 1] == p);
                        }
                    } else {
                        assert(old_pairs.contains(p));
                        let t = choose|t: int| 0 <= t < old_pairs.len() && old_pairs[t] == p;
                        assert(pairs@[t] == p);
                    }
                }
            }
            bi = bi + 1;
        }
        proof {
            assert forall|a: usize, b: usize|
                scanned_pair(list@, ai as int, len as int, a, b) == scanned_pair(
                    list@,
                    ai as int + 1,
                    ai as int + 2,
                    a,
                    b,
                ) by {
                lemma_scanned_shift(list@, ai as int, a, b);
            }
        }
        ai = ai + 1;
    }
    proof {
        let ghost full = |a: int, b: int|
            cond(a, b) || (exists|x: int, y: int|
                0 <= x < y < list@.len() && #[trigger] list@[x] == a && #[trigger] list@[y] == b);
        assert forall|a: usize, b: usize|
            #[trigger] pairs@.contains(CollisionCandidatePair { a, b }) <==> (a < b && b < n
                && full(a as int, b as int) && !mutually_ignored(
                bodies@[a as int],
                bodies@[b as int],
            )) by {
            lemma_scanned_full(list@, a, b);
            if scanned_pair(list@, len as int, len as int + 1, a, b) {
                let (x, y) = choose|x: int, y: int|
                    0 <= x < y < list@.len() && #[trigger] list@[x] == a && #[trigger] list@[y]
                        == b;
                assert(list@[x] as int == a as int && list@[y] as int == b as int);
                assert(full(a as int, b as int));
            }
            if full(a as int, b as int) && !cond(a as int, b as int) {
                let (x, y) = choose|x: int, y: int|
                    0 <= x < y < list@.len() && #[trigger] list@[x] == a as int
                        && #[trigger] list@[y] == b as int;
                assert(list@[x] == a && list@[y] == b);
                assert(scanned_pair(list@, len as int, len as int + 1, a, b));
            }
        }
    }
    pairs
}

/// Scanning cell `c` extends the owed set from `c` cells to `c + 1` cells:
/// the new pairs are exactly the index pairs of that cell's list.
proof fn lemma_cell_step(
    bodies: Seq<Body>,
    window: Vector2,
    cell: Seq<usize>,
    c: int,
    a: usize,
    b: usize,
)
    requires
        0 <= c < (GRID_SIZE * GRID_SIZE) as int,
        cell_ok(bodies, window, cell, c),
        a < b,
        (b as int) < bodies.len(),
    ensures
        (emitted_up_to(bodies, window, a as int, b as int, c) || (exists|x: int, y: int|
            0 <= x < y < cell.len() && #[trigger] cell[x] == a && #[trigger] cell[y] == b))
            == emitted_up_to(bodies, window, a as int, b as int, c + 1),
{
    lemma_divmod_bounds(c);
    let ci = c / (GRID_SIZE as int);
    let cj = c % (GRID_SIZE as int);
    assert(ci * (GRID_SIZE as int) + cj == c) by (nonlinear_arith)
        requires
            ci == c / (GRID_SIZE as int),
            cj == c % (GRID_SIZE as int),
            (GRID_SIZE as int) == 20,
            0 <= c;
    if emitted_up_to(bodies, window, a as int, b as int, c) {
        let (i, j) = choose|i: int, j: int|
            #[trigger] body_in_cell(bodies[a as int], window, i, j) && #[trigger] body_in_cell(
                bodies[b as int],
                window,
                i,
                j,
            ) && i * GRID_SIZE as int + j < c;
        assert(emitted_up_to(bodies, window, a as int, b as int, c + 1));
    }
    if exists|x: int, y: int|
        0 <= x < y < cell.len() && #[trigger] cell[x] == a && #[trigger] cell[y] == b {
        let (x, y) = choose|x: int, y: int|
            0 <= x < y < cell.len() && #[trigger] cell[x] == a && #[trigger] cell[y] == b;
        assert(body_in_cell(bodies[a as int], window, ci, cj));
        assert(body_in_cell(bodies[b as int], window, ci, cj));
        assert(emitted_up_to(bodies, window, a as int, b as int, c + 1));
    }
    if emitted_up_to(bodies, window, a as int, b as int, c + 1) && !emitted_up_to(
        bodies,
        window,
        a as int,
        b as int,
        c,
    ) {
        let (i, j) = choose|i: int, j: int|
            #[trigger] body_in_cell(bodies[a as int], window, i, j) && #[trigger] body_in_cell(
                bodies[b as int],
                window,
                i,
                j,
            ) && i * GRID_SIZE as int + j < c + 1;
        assert(i * GRID_SIZE as int + j == c);
        assert(i == ci && j == cj) by (nonlinear_arith)
            requires
                0 <= j < GRID_SIZE as int,
                0 <= i,
                i * GRID_SIZE as int + j == c,
                ci == c / (GRID_SIZE as int),
                cj == c % (GRID_SIZE as int),
                (GRID_SIZE as int) == 20;
        assert(cell.contains(a));
        assert(cell.contains(b));
        let x = choose|x: int| 0 <= x < cell.len() && cell[x] == a;
        let y = choose|y: int| 0 <= y < cell.len() && cell[y] == b;
        assert(cell[x] == a && cell[y] == b);
        if x < y {
        } else if y < x {
            assert(cell[y] < cell[x]);
            assert(false);
        } else {
            assert(false);
        }
    }
}

/// The index pairs of the out-of-bounds list are exactly the pairs of
/// out-of-bounds bodies.
proof fn lemma_oob_pairs(bodies: Seq<Body>, window: Vector2, oob: Seq<usize>, a: usize, b: usize)
    requires
        oob_ok(bodies, window, oob),
        a < b,
        (b as int) < bodies.len(),
    ensures
        (exists|x: int, y: int|
            0 <= x < y < oob.len() && #[trigger] oob[x] == a && #[trigger] oob[y] == b) == (
        body_oob(bodies[a as int], window) && body_oob(bodies[b as int], window)),
{
    if exists|x: int, y: int|
        0 <= x < y < oob.len() && #[trigger] oob[x] == a && #[trigger] oob[y] == b {
        let (x, y) = choose|x: int, y: int|
            0 <= x < y < oob.len() && #[trigger] oob[x] == a && #[trigger] oob[y] == b;
        assert(body_oob(bodies[oob[x] as int], window));
        assert(body_oob(bodies[oob[y] as int], window));
    }
    if body_oob(bodies[a as int], window) && body_oob(bodies[b as int], window) {
        assert(oob.contains(a));
        assert(oob.contains(b));
        let x = choose|x: int| 0 <= x < oob.len() && oob[x] == a;
        let y = choose|y: int| 0 <= y < oob.len() && oob[y] == b;
        assert(oob[x] == a && oob[y] == b);
        if x < y {
        } else if y < x {
            assert(oob[y] < oob[x]);
            assert(false);
        } else {
            assert(false);
        }
    }
}

/// The collision detector: buckets bodies into a uniform grid scaled to
/// the window, emits candidate pairs, and confirms them with the
/// separating-axis test.
pub struct CollisionDetector {
    pub window_size: Vector2,
}

impl CollisionDetector {
    /// A detector whose grid spans the given window extent.
    pub fn new(window_size: Vector2) -> (r: CollisionDetector)
        ensures
            r.window_size == window_size,
    {
        CollisionDetector { window_size }
    }

    /// Broad phase: the candidate pairs, the grid occupancy (row-major
    /// cells of body indices) and the out-of-bounds body list.
    ///
    /// The pair list holds exactly one entry, smaller index first, for
    /// every unordered pair of distinct bodies that share a grid cell or
    /// are both (partly) out of bounds, unless either body's ignore set
    /// names the other's collision group.
    pub fn broad_phase(&self, bodies: &Vec<Body>) -> (r: (
        Vec<CollisionCandidatePair>,
        Vec<Vec<usize>>,
        Vec<usize>,
    ))
        requires
            forall|k: int| 0 <= k < bodies@.len() ==> well_formed(#[trigger] bodies@[k]),
        ensures
            pairs_wf(bodies@, r.0@),
            pairs_nodup(r.0@),
            forall|a: usize, b: usize|
                #[trigger] r.0@.contains(CollisionCandidatePair { a, b }) <==> (a < b && b
                    < bodies@.len() && candidate_pair(
                    bodies@,
                    self.window_size,
                    a as int,
                    b as int,
                )),
            r.1@.len() == (GRID_SIZE * GRID_SIZE) as int,
            forall|c: int|
                0 <= c < r.1@.len() ==> cell_ok(bodies@, self.window_size, #[trigger] r.1@[c]@, c),
            oob_ok(bodies@, self.window_size, r.2@),
    {
        let window: Vector2 = self.window_size;
        let n: usize = bodies.len();
        let ranges: Vec<CellRange> = compute_ranges(bodies, window);
        let oob: Vec<usize> = compute_oob(bodies, &ranges, window);
        let grid: Vec<Vec<usize>> = build_grid(bodies, &ranges, window);

        let mut pairs: Vec<CollisionCandidatePair> = Vec::new();
        let mut c: usize = 0;
        while c < GRID_SIZE * GRID_SIZE
            invariant
                n == bodies@.len(),
                grid@.len() == (GRID_SIZE * GRID_SIZE) as int,
                forall|d: int|
                    0 <= d < grid@.len() ==> cell_ok(bodies@, window, #[trigger] grid@[d]@, d),
                0 <= c <= (GRID_SIZE * GRID_SIZE) as int,
                pairs_wf(bodies@, pairs@),
                pairs_nodup(pairs@),
                forall|a: usize, b: usize|
                    #[trigger] pairs@.contains(CollisionCandidatePair { a, b }) <==> (a < b && b
                        < n && emitted_up_to(bodies@, window, a as int, b as int, c as int)
                        && !mutually_ignored(bodies@[a as int], bodies@[b as int])),
            decreases (GRID_SIZE * GRID_SIZE) as int - c,
        {
            let ghost cond = |a: int, b: int|
                emitted_up_to(bodies@, window, a, b, c as int);
            proof {
                assert forall|t: int|
                    0 <= t < grid@[c as int]@.len() implies #[trigger] (grid@[c as int]@[t]) < n
                    by {
                    assert(cell_ok(bodies@, window, grid@[c as int]@, c as int));
                }
                assert(pairs_char(bodies@, pairs@, cond));
            }
            let next: Vec<CollisionCandidatePair> = scan_index_list(
                bodies,
                &grid[c],
                pairs,
                Ghost(cond),
            );
            pairs = next;
            proof {
                let cell = grid@[c as int]@;
                assert forall|a: usize, b: usize|
                    #[trigger] pairs@.contains(CollisionCandidatePair { a, b }) <==> (a < b && b
                        < n && emitted_up_to(bodies@, window, a as int, b as int, c as int + 1)
                        && !mutually_ignored(bodies@[a as int], bodies@[b as int])) by {
                    if a < b && (b as int) < bodies@.len() {
                        lemma_cell_step(bodies@, window, cell, c as int, a, b);
                    }
                }
            }
            c = c + 1;
        }
        proof {
            assert forall|a: usize, b: usize|
                #[trigger] pairs@.contains(CollisionCandidatePair { a, b }) <==> (a < b && b < n
                    && shares_cell(bodies@[a as int], bodies@[b as int], window)
                    && !mutually_ignored(bodies@[a as int], bodies@[b as int])) by {
                if a < b && (b as int) < bodies@.len() {
                    lemma_emitted_full(bodies@, window, a as int, b as int);
                }
            }
        }
        let ghost cond2 = |a: int, b: int|
            shares_cell(bodies@[a], bodies@[b], window);
        proof {
            assert(pairs_char(bodies@, pairs@, cond2));
            assert forall|t: int| 0 <= t < oob@.len() implies #[trigger] oob@[t] < n by {}
        }
        let next: Vec<CollisionCandidatePair> = scan_index_list(bodies, &oob, pairs, Ghost(cond2));
        let pairs: Vec<CollisionCandidatePair> = next;
        proof {
            assert forall|a: usize, b: usize|
                #[trigger] pairs@.contains(CollisionCandidatePair { a, b }) <==> (a < b && b < n
                    && candidate_pair(bodies@, window, a as int, b as int)) by {
                if a < b && (b as int) < bodies@.len() {
                    lemma_oob_pairs(bodies@, window, oob@, a, b);
                }
            }
        }
        (pairs, grid, oob)
    }
}

/// Projection of world vertex `i` of `b` onto `axis`.
pub open spec fn proj_of(b: Body, axis: Vector2, i: int) -> int {
    dot_fp(world_vertex(b, i), axis)
}

/// Running minimum of the projections of the first `k` vertices, started
/// from `i64::MAX`.
pub open spec fn proj_min_upto(b: Body, axis: Vector2, k: int) -> int
    decreases k,
{
    if k <= 0 {
        i64::MAX as int
    } else {
        imin(proj_min_upto(b, axis, k - 1), proj_of(b, axis, k - 1))
    }
}

/// Running maximum of the projections of the first `k` vertices, started
/// from `i64::MIN`.
pub open spec fn proj_max_upto(b: Body, axis: Vector2, k: int) -> int
    decreases k,
{
    if k <= 0 {
        i64::MIN as int
    } else {
        imax(proj_max_upto(b, axis, k - 1), proj_of(b, axis, k - 1))
    }
}

/// Least projection of `b` onto `axis`.
pub open spec fn proj_min(b: Body, axis: Vector2) -> int {
    proj_min_upto(b, axis, b.sides as int)
}

/// Greatest projection of `b` onto `axis`.
pub open spec fn proj_max(b: Body, axis: Vector2) -> int {
    proj_max_upto(b, axis, b.sides as int)
}

/// The candidate separating axes of a pair: the edge normals of both.
pub open spec fn axes_pair(b1: Body, b2: Body) -> Seq<Vector2> {
    axes_spec(b1) + axes_spec(b2)
}

/// Whether the projections of the two bodies onto the normalized `k`-th
/// candidate axis are disjoint.
pub open spec fn disjoint_on(b1: Body, b2: Body, k: int) -> bool {
    let ax = norm_v2(axes_pair(b1, b2)[k]);
    proj_max(b1, ax) <= proj_min(b2, ax) || proj_max(b2, ax) <= proj_min(b1, ax)
}

/// Overlap tracked on the normalized `k`-th candidate axis: the first
/// body's greatest projection past the second body's least.
pub open spec fn overlap_on(b1: Body, b2: Body, k: int) -> int {
    let ax = norm_v2(axes_pair(b1, b2)[k]);
    sub_sat(proj_max(b1, ax), proj_min(b2, ax))
}

/// The separating-axis answer: colliding iff no candidate axis separates
/// the projections.
pub open spec fn colliding(b1: Body, b2: Body) -> bool {
    forall|k: int| 0 <= k < axes_pair(b1, b2).len() ==> !disjoint_on(b1, b2, k)
}

/// The first index among the first `k` candidate axes with the strictly
/// smallest overlap.
pub open spec fn best_axis_upto(b1: Body, b2: Body, k: int) -> int
    decreases k,
{
    if k <= 1 {
        0
    } else {
        let p = best_axis_upto(b1, b2, k - 1);
        if overlap_on(b1, b2, k - 1) < overlap_on(b1, b2, p) {
            k - 1
        } else {
            p
        }
    }
}

/// The axis whose overlap becomes the manifold's penetration depth.
pub open spec fn best_axis(b1: Body, b2: Body) -> int {
    best_axis_upto(b1, b2, axes_pair(b1, b2).len() as int)
}

/// Projection bounds of `b` onto `axis`, scanned over all vertices from
/// saturated initial bounds.
fn projection_bounds(b: &Body, axis: Vector2) -> (r: Projection)
    requires
        well_formed(*b),
    ensures
        r.min as int == proj_min(*b, axis),
        r.max as int == proj_max(*b, axis),
{
    let n: usize = b.sides as usize;
    let mut min: i64 = i64::MAX;
    let mut max: i64 = i64::MIN;
    let mut i: usize = 0;
    while i < n
        invariant
            well_formed(*b),
            n == b.sides as int,
            0 <= i <= n,
            min as int == proj_min_upto(*b, axis, i as int),
            max as int == proj_max_upto(*b, axis, i as int),
        decreases n - i,
    {
        let p: Vector2 = b.globalise(b.vertices[i].to_vec2());
        let proj: i64 = Vector2::dot(p, axis);
        if proj < min {
            min = proj;
        }
        if proj > max {
            max = proj;
        }
        i = i + 1;
    }
    Projection { min, max }
}

/// The separating-axis test: `None` with a separating axis, otherwise the
/// normalized axis of least overlap and that overlap (the penetration
/// depth).
pub fn sat_test(b1: &Body, b2: &Body) -> (r: Option<(Vector2, i64)>)
    requires
        well_formed(*b1),
        well_formed(*b2),
    ensures
        r.is_some() == colliding(*b1, *b2),
        r.is_some() ==> {
            let k = best_axis(*b1, *b2);
            &&& r.unwrap().0 == norm_v2(axes_pair(*b1, *b2)[k])
            &&& r.unwrap().1 as int == overlap_on(*b1, *b2, k)
        },
{
    let mut axes_all: Vec<Vector2> = b1.axes();
    let axes2: Vec<Vector2> = b2.axes();
    let ghost all = axes_pair(*b1, *b2);
    let n2: usize = axes2.len();
    let mut t: usize = 0;
    while t < n2
        invariant
            n2 == axes2@.len(),
            0 <= t <= n2,
            axes2@ == axes_spec(*b2),
            axes_all@ == axes_spec(*b1) + axes_spec(*b2).take(t as int),
        decreases n2 - t,
    {
        axes_all.push(axes2[t]);
        proof {
            assert(axes_all@ =~= axes_spec(*b1) + axes_spec(*b2).take(t as int + 1));
        }
        t = t + 1;
    }
    proof {
        assert(axes_spec(*b2).take(n2 as int) =~= axes_spec(*b2));
        assert(axes_all@ =~= all);
    }
    let n: usize = axes_all.len();

    let mut best_overlap: i64 = 0;
    let mut best_normal: Vector2 = Vector2 { x: 0, y: 0 };
    let mut k: usize = 0;
    while k < n
        invariant
            well_formed(*b1),
            well_formed(*b2),
            axes_all@ == all,
            all == axes_pair(*b1, *b2),
            n == all.len(),
            0 <= k <= n,
            forall|t2: int| 0 <= t2 < k ==> !disjoint_on(*b1, *b2, t2),
            k > 0 ==> best_overlap as int == overlap_on(*b1, *b2, best_axis_upto(*b1, *b2, k as int)),
            k > 0 ==> best_normal == norm_v2(all[best_axis_upto(*b1, *b2, k as int)]),
        decreases n - k,
    {
        let ax_raw: Vector2 = axes_all[k];
        proof {
            assert(all[k as int] == ax_raw);
        }
        let ax: Vector2 = ax_raw.norm();
        let p1: Projection = projection_bounds(b1, ax);
        let p2: Projection = projection_bounds(b2, ax);
        if p1.max <= p2.min || p2.max <= p1.min {
            proof {
                assert(disjoint_on(*b1, *b2, k as int));
            }
            return None;
        }
        let overlap: i64 = fxp::fp_sub(p1.max, p2.min);
        proof {
            assert(overlap as int == overlap_on(*b1, *b2, k as int));
        }
        if k == 0 || overlap < best_overlap {
            best_overlap = overlap;
            best_normal = ax;
            proof {
                if k > 0 {
                    assert(best_axis_upto(*b1, *b2, k as int + 1) == k as int);
                }
            }
        }
        k = k + 1;
    }
    Some((best_normal, best_overlap))
}

/// State of the contact scan: least squared distance seen, the contact it
/// belongs to, and a second contact at an equal distance if one arose.
pub struct ContactState {
    pub dist: int,
    pub first: Vector2,
    pub second: Option<Vector2>,
}

/// One step of the contact scan against the segment `l1..l2`: a distance
/// equal (within tolerance) to the least seen records a second distinct
/// contact; a strictly smaller one restarts the pair.
pub open spec fn contact_step(st: ContactState, p: Vector2, l1: Vector2, l2: Vector2) -> ContactState {
    let (d, out) = p_dist_spec(p, l1, l2);
    if crate::fxp::almost_eq_fp(d, st.dist) {
        if !almost_eq_v2(out, st.first) {
            ContactState { dist: st.dist, first: st.first, second: Some(out) }
        } else {
            st
        }
    } else if d < st.dist {
        ContactState { dist: d, first: out, second: None }
    } else {
        st
    }
}

/// The scan of one vertex `p` against the first `j` edges of `eb`.
pub open spec fn contact_scan_row(st: ContactState, p: Vector2, eb: Body, j: int) -> ContactState
    decreases j,
{
    if j <= 0 {
        st
    } else {
        let prev = contact_scan_row(st, p, eb, j - 1);
        let l1 = world_vertex(eb, j - 1);
        let l2 = world_vertex(eb, if j == eb.sides as int { 0 } else { j });
        contact_step(prev, p, l1, l2)
    }
}

/// The scan of the first `i` vertices of `vb` against all edges of `eb`.
pub open spec fn contact_scan(st: ContactState, vb: Body, eb: Body, i: int) -> ContactState
    decreases i,
{
    if i <= 0 {
        st
    } else {
        contact_scan_row(contact_scan(st, vb, eb, i - 1), world_vertex(vb, i - 1), eb, eb.sides as int)
    }
}

/// The starting state of the contact scan.
pub open spec fn contact_init() -> ContactState {
    ContactState { dist: i64::MAX as int, first: Vector2 { x: 0, y: 0 }, second: None }
}

/// The final state of the scan: `b1`'s vertices against `b2`'s edges, then
/// `b2`'s vertices against `b1`'s edges.
pub open spec fn contact_final(b1: Body, b2: Body) -> ContactState {
    contact_scan(contact_scan(contact_init(), b1, b2, b1.sides as int), b2, b1, b2.sides as int)
}

/// The contact points of the manifold: one or two, from the scan.
pub open spec fn contacts_spec(b1: Body, b2: Body) -> Seq<Vector2> {
    let st = contact_final(b1, b2);
    if st.second.is_some() {
        seq![st.first, st.second.unwrap()]
    } else {
        seq![st.first]
    }
}

/// Runs the contact scan of `vb`'s vertices against `eb`'s edges from the
/// given state.
fn scan_contacts_of(
    vb: &Body,
    eb: &Body,
    dist: i64,
    first: Vector2,
    second: Option<Vector2>,
) -> (r: (i64, Vector2, Option<Vector2>))
    requires
        well_formed(*vb),
        well_formed(*eb),
    ensures
        (ContactState { dist: r.0 as int, first: r.1, second: r.2 }) == contact_scan(
            ContactState { dist: dist as int, first, second },
            *vb,
            *eb,
            vb.sides as int,
        ),
{
    let ghost st0 = ContactState { dist: dist as int, first, second };
    let nv: usize = vb.sides as usize;
    let ne: usize = eb.sides as usize;
    let mut dist: i64 = dist;
    let mut first: Vector2 = first;
    let mut second: Option<Vector2> = second;
    let mut i: usize = 0;
    while i < nv
        invariant
            well_formed(*vb),
            well_formed(*eb),
            nv == vb.sides as int,
            ne == eb.sides as int,
            0 <= i <= nv,
            (ContactState { dist: dist as int, first, second }) == contact_scan(
                st0,
                *vb,
                *eb,
                i as int,
            ),
        decreases nv - i,
    {
        let p: Vector2 = vb.globalise(vb.vertices[i].to_vec2());
        let ghost row0 = ContactState { dist: dist as int, first, second };
        let mut j: usize = 0;
        while j < ne
            invariant
                well_formed(*vb),
                well_formed(*eb),
                nv == vb.sides as int,
                ne == eb.sides as int,
                i < nv,
                p == world_vertex(*vb, i as int),
                0 <= j <= ne,
                (ContactState { dist: dist as int, first, second }) == contact_scan_row(
                    row0,
                    p,
                    *eb,
                    j as int,
                ),
            decreases ne - j,
        {
            let jn: usize = if j + 1 == ne {
                0
            } else {
                j + 1
            };
            let l1: Vector2 = eb.globalise(eb.vertices[j].to_vec2());
            let l2: Vector2 = eb.globalise(eb.vertices[jn].to_vec2());
            let (d, out): (i64, Vector2) = Vector2::p_dist(p, l1, l2);
            if fxp::almost_eq(d, dist) {
                if !Vector2::almost_eq(out, first) {
                    second = Some(out);
                }
            } else if d < dist {
                dist = d;
                first = out;
                second = None;
            }
            j = j + 1;
        }
        i = i + 1;
    }
    (dist, first, second)
}

/// The contact points between two colliding bodies: each vertex of either
/// body is held against every edge of the other, keeping the one or two
/// mutually distinct closest points.
pub fn find_contacts(b1: &Body, b2: &Body) -> (r: Vec<Vector2>)
    requires
        well_formed(*b1),
        well_formed(*b2),
    ensures
        r@ == contacts_spec(*b1, *b2),
        1 <= r@.len() <= 2,
{
    let (d1, f1, s1): (i64, Vector2, Option<Vector2>) = scan_contacts_of(
        b1,
        b2,
        i64::MAX,
        Vector2 { x: 0, y: 0 },
        None,
    );
    let (d2, f2, s2): (i64, Vector2, Option<Vector2>) = scan_contacts_of(b2, b1, d1, f1, s1);
    let mut out: Vec<Vector2> = Vec::new();
    out.push(f2);
    match s2 {
        Some(sc) => {
            out.push(sc);
            proof {
                assert(out@ =~= contacts_spec(*b1, *b2));
            }
        },
        None => {
            proof {
                assert(out@ =~= contacts_spec(*b1, *b2));
            }
        },
    }
    out
}

/// Whether the bodies of a candidate pair collide.
pub open spec fn pair_collides(bodies: Seq<Body>, pair: CollisionCandidatePair) -> bool {
    colliding(bodies[pair.a as int], bodies[pair.b as int])
}

/// How many of the first `k` candidate pairs collide.
pub open spec fn count_colliding(
    bodies: Seq<Body>,
    pairs: Seq<CollisionCandidatePair>,
    k: int,
) -> int
    decreases k,
{
    if k <= 0 {
        0
    } else {
        count_colliding(bodies, pairs, k - 1) + if pair_collides(bodies, pairs[k - 1]) {
            1int
        } else {
            0int
        }
    }
}

/// The count of colliding pairs is non-negative.
proof fn lemma_count_nonneg(bodies: Seq<Body>, pairs: Seq<CollisionCandidatePair>, t: int)
    ensures
        0 <= count_colliding(bodies, pairs, t),
    decreases t,
{
    if t > 0 {
        lemma_count_nonneg(bodies, pairs, t - 1);
    }
}

/// The number of colliding pairs never decreases along the scan, and a
/// colliding pair strictly increases it.
proof fn lemma_count_mono(bodies: Seq<Body>, pairs: Seq<CollisionCandidatePair>, t: int, k: int)
    requires
        0 <= t <= k,
    ensures
        count_colliding(bodies, pairs, t) <= count_colliding(bodies, pairs, k),
        0 <= count_colliding(bodies, pairs, t),
        t < k && pair_collides(bodies, pairs[t]) ==> count_colliding(bodies, pairs, t) + 1
            <= count_colliding(bodies, pairs, k),
    decreases k - t,
{
    lemma_count_nonneg(bodies, pairs, t);
    if t < k {
        lemma_count_mono(bodies, pairs, t, k - 1);
    }
}

/// Whether `res` is the manifold owed for `pair`: the pair itself, the
/// normalized least-overlap axis, its overlap as the penetration depth,
/// and the scanned contact points.
pub open spec fn manifold_matches(
    bodies: Seq<Body>,
    pair: CollisionCandidatePair,
    res: CollisionResult,
) -> bool {
    let b1 = bodies[pair.a as int];
    let b2 = bodies[pair.b as int];
    let k = best_axis(b1, b2);
    &&& res.bodies == pair
    &&& res.normal == norm_v2(axes_pair(b1, b2)[k])
    &&& res.overlap as int == overlap_on(b1, b2, k)
    &&& res.contacts@ == contacts_spec(b1, b2)
}

impl CollisionDetector {
    /// Narrow phase: one manifold for each candidate pair that the
    /// separating-axis test confirms, in scan order.
    pub fn narrow_phase(&self, bodies: &Vec<Body>, pairs: &Vec<CollisionCandidatePair>) -> (r:
        Vec<CollisionResult>)
        requires
            forall|k: int| 0 <= k < bodies@.len() ==> well_formed(#[trigger] bodies@[k]),
            forall|t: int|
                0 <= t < pairs@.len() ==> #[trigger] pairs@[t].a < pairs@[t].b && pairs@[t].b
                    < bodies@.len(),
        ensures
            crate::resolver::manifolds_wf(r@, bodies@.len() as int),
            r@.len() == count_colliding(bodies@, pairs@, pairs@.len() as int),
            forall|t: int|
                0 <= t < pairs@.len() && pair_collides(bodies@, #[trigger] pairs@[t])
                    ==> manifold_matches(
                    bodies@,
                    pairs@[t],
                    r@[count_colliding(bodies@, pairs@, t)],
                ),
    {
        let n: usize = pairs.len();
        let mut out: Vec<CollisionResult> = Vec::new();
        let mut k: usize = 0;
        while k < n
            invariant
                n == pairs@.len(),
                forall|t: int| 0 <= t < bodies@.len() ==> well_formed(#[trigger] bodies@[t]),
                forall|t: int|
                    0 <= t < pairs@.len() ==> #[trigger] pairs@[t].a < pairs@[t].b && pairs@[t].b
                        < bodies@.len(),
                0 <= k <= n,
                crate::resolver::manifolds_wf(out@, bodies@.len() as int),
                out@.len() == count_colliding(bodies@, pairs@, k as int),
                forall|t: int|
                    0 <= t < k && pair_collides(bodies@, #[trigger] pairs@[t])
                        ==> manifold_matches(
                        bodies@,
                        pairs@[t],
                        out@[count_colliding(bodies@, pairs@, t)],
                    ),
            decreases n - k,
        {
            let pair: CollisionCandidatePair = pairs[k];
            let ghost old_out = out@;
            match sat_test(&bodies[pair.a], &bodies[pair.b]) {
                Some((normal, overlap)) => {
                    let contacts: Vec<Vector2> = find_contacts(&bodies[pair.a], &bodies[pair.b]);
                    out.push(CollisionResult { bodies: pair, normal, overlap, contacts });
                },
                None => {},
            }
            proof {
                assert forall|t: int|
                    0 <= t < k + 1 && pair_collides(bodies@, #[trigger] pairs@[t])
                        implies manifold_matches(
                        bodies@,
                        pairs@[t],
                        out@[count_colliding(bodies@, pairs@, t)],
                    ) by {
                    lemma_count_mono(bodies@, pairs@, t, k as int);
                    if t < k {
                        assert(old_out[count_colliding(bodies@, pairs@, t)]
                            == out@[count_colliding(bodies@, pairs@, t)]);
                    }
                }
            }
            k = k + 1;
        }
        out
    }

    /// One full detection pass: broad phase, then narrow phase on its
    /// candidates, with every stage's output published in the snapshot.
    pub fn evaluate(&self, bodies: &Vec<Body>) -> (r: Shared)
        requires
            forall|k: int| 0 <= k < bodies@.len() ==> well_formed(#[trigger] bodies@[k]),
        ensures
            r.window_size == self.window_size,
            pairs_wf(bodies@, r.broad_phase_pairs@),
            pairs_nodup(r.broad_phase_pairs@),
            forall|a: usize, b: usize|
                #[trigger] r.broad_phase_pairs@.contains(CollisionCandidatePair { a, b }) <==> (a
                    < b && b < bodies@.len() && candidate_pair(
                    bodies@,
                    self.window_size,
                    a as int,
                    b as int,
                )),
            r.collision_grid@.len() == (GRID_SIZE * GRID_SIZE) as int,
            forall|c: int|
                0 <= c < r.collision_grid@.len() ==> cell_ok(
                    bodies@,
                    self.window_size,
                    #[trigger] r.collision_grid@[c]@,
                    c,
                ),
            crate::resolver::manifolds_wf(r.narrow_phase_pairs@, bodies@.len() as int),
            r.narrow_phase_pairs@.len() == count_colliding(
                bodies@,
                r.broad_phase_pairs@,
                r.broad_phase_pairs@.len() as int,
            ),
            forall|t: int|
                0 <= t < r.broad_phase_pairs@.len() && pair_collides(
                    bodies@,
                    #[trigger] r.broad_phase_pairs@[t],
                ) ==> manifold_matches(
                    bodies@,
                    r.broad_phase_pairs@[t],
                    r.narrow_phase_pairs@[count_colliding(bodies@, r.broad_phase_pairs@, t)],
                ),
    {
        let (pairs, grid, _oob): (Vec<CollisionCandidatePair>, Vec<Vec<usize>>, Vec<usize>) =
            self.broad_phase(bodies);
        let results: Vec<CollisionResult> = self.narrow_phase(bodies, &pairs);
        Shared {
            window_size: self.window_size,
            collision_grid: grid,
            broad_phase_pairs: pairs,
            narrow_phase_pairs: results,
        }
    }
}

/// Bodies whose bounding boxes span disjoint grid-cell ranges, and are
/// not both out of bounds, are never candidates: the broad phase emits no
/// pair for them.  (The grid works at cell granularity: two disjoint
/// boxes inside one shared cell are still paired.)
pub proof fn lemma_separated_no_candidate(bodies: Seq<Body>, window: Vector2, a: int, b: int)
    requires
        0 <= a < bodies.len(),
        0 <= b < bodies.len(),
        cmax_x(bodies[a], window) < cmin_x(bodies[b], window) || cmax_x(bodies[b], window)
            < cmin_x(bodies[a], window) || cmax_y(bodies[a], window) < cmin_y(bodies[b], window)
            || cmax_y(bodies[b], window) < cmin_y(bodies[a], window),
        !(body_oob(bodies[a], window) && body_oob(bodies[b], window)),
    ensures
        !candidate_pair(bodies, window, a, b),
{
    if shares_cell(bodies[a], bodies[b], window) {
        let (i, j) = choose|i: int, j: int|
            #[trigger] body_in_cell(bodies[a], window, i, j) && #[trigger] body_in_cell(
                bodies[b],
                window,
                i,
                j,
            );
    }
}

/// Bodies whose collision groups appear in each other's ignore sets are
/// never candidates, however their bounding boxes overlap.
pub proof fn lemma_mutual_ignore_no_candidate(bodies: Seq<Body>, window: Vector2, a: int, b: int)
    requires
        mutually_ignored(bodies[a], bodies[b]),
    ensures
        !candidate_pair(bodies, window, a, b),
{
}

/// One separating axis among the candidates disproves the collision: the
/// separating-axis test returns no manifold for the pair.
pub proof fn lemma_separating_axis(b1: Body, b2: Body, k: int)
    requires
        0 <= k < axes_pair(b1, b2).len(),
        disjoint_on(b1, b2, k),
    ensures
        !colliding(b1, b2),
{
}

/// Monotone saturated chain: ordering of the rotated offsets survives the
/// translation and both clamps.
proof fn lemma_chain_mono(base: int, i1: int, i2: int)
    requires
        i1 <= i2,
    ensures
        crate::fxp::sat64(base + crate::fxp::sat64(i1)) <= crate::fxp::sat64(
            base + crate::fxp::sat64(i2),
        ),
{
    crate::fxp::lemma_sat64_mono(i1, i2);
    crate::fxp::lemma_sat64_mono(base + crate::fxp::sat64(i1), base + crate::fxp::sat64(i2));
}

/// A value between the least and greatest of four rotated corner offsets
/// stays between the four finished corner coordinates.
proof fn lemma_box_bound(
    base: int,
    iv: int,
    i0: int,
    i1: int,
    i2: int,
    i3: int,
    p0: int,
    p1: int,
    p2: int,
    p3: int,
)
    requires
        imin(imin(i0, i1), imin(i2, i3)) <= iv,
        iv <= imax(imax(i0, i1), imax(i2, i3)),
        p0 == crate::fxp::sat64(base + crate::fxp::sat64(i0)),
        p1 == crate::fxp::sat64(base + crate::fxp::sat64(i1)),
        p2 == crate::fxp::sat64(base + crate::fxp::sat64(i2)),
        p3 == crate::fxp::sat64(base + crate::fxp::sat64(i3)),
    ensures
        imin(imin(p0, p1), imin(p2, p3)) <= crate::fxp::sat64(base + crate::fxp::sat64(iv)),
        crate::fxp::sat64(base + crate::fxp::sat64(iv)) <= imax(imax(p0, p1), imax(p2, p3)),
{
    let mx = imax(imax(i0, i1), imax(i2, i3));
    if mx == i0 {
        lemma_chain_mono(base, iv, i0);
    } else if mx == i1 {
        lemma_chain_mono(base, iv, i1);
    } else if mx == i2 {
        lemma_chain_mono(base, iv, i2);
    } else {
        lemma_chain_mono(base, iv, i3);
    }
    let mn = imin(imin(i0, i1), imin(i2, i3));
    if mn == i0 {
        lemma_chain_mono(base, i0, iv);
    } else if mn == i1 {
        lemma_chain_mono(base, i1, iv);
    } else if mn == i2 {
        lemma_chain_mono(base, i2, iv);
    } else {
        lemma_chain_mono(base, i3, iv);
    }
}

/// The rotated offset of a point inside a box stays between the rotated
/// offsets of the box's four corners, on both coordinates.
proof fn lemma_rotate_bounded(
    rot: Vector2,
    vx: int,
    vy: int,
    x0: int,
    x1: int,
    y0: int,
    y1: int,
)
    requires
        x0 <= vx,
        vx <= x1,
        y0 <= vy,
        vy <= y1,
    ensures
        ({
            let c = rot.x as int;
            let s = rot.y as int;
            let ixv = crate::fxp::mul_fp(vx, c) - crate::fxp::mul_fp(vy, s);
            let iyv = crate::fxp::mul_fp(vx, s) + crate::fxp::mul_fp(vy, c);
            let ix00 = crate::fxp::mul_fp(x0, c) - crate::fxp::mul_fp(y0, s);
            let ix10 = crate::fxp::mul_fp(x1, c) - crate::fxp::mul_fp(y0, s);
            let ix11 = crate::fxp::mul_fp(x1, c) - crate::fxp::mul_fp(y1, s);
            let ix01 = crate::fxp::mul_fp(x0, c) - crate::fxp::mul_fp(y1, s);
            let iy00 = crate::fxp::mul_fp(x0, s) + crate::fxp::mul_fp(y0, c);
            let iy10 = crate::fxp::mul_fp(x1, s) + crate::fxp::mul_fp(y0, c);
            let iy11 = crate::fxp::mul_fp(x1, s) + crate::fxp::mul_fp(y1, c);
            let iy01 = crate::fxp::mul_fp(x0, s) + crate::fxp::mul_fp(y1, c);
            &&& imin(imin(ix00, ix10), imin(ix11, ix01)) <= ixv
            &&& ixv <= imax(imax(ix00, ix10), imax(ix11, ix01))
            &&& imin(imin(iy00, iy10), imin(iy11, iy01)) <= iyv
            &&& iyv <= imax(imax(iy00, iy10), imax(iy11, iy01))
        }),
{
    let c = rot.x as int;
    let s = rot.y as int;
    crate::fxp::lemma_mul_fp_mono(x0, vx, c);
    crate::fxp::lemma_mul_fp_mono(vx, x1, c);
    crate::fxp::lemma_mul_fp_mono(y0, vy, s);
    crate::fxp::lemma_mul_fp_mono(vy, y1, s);
    crate::fxp::lemma_mul_fp_mono(x0, vx, s);
    crate::fxp::lemma_mul_fp_mono(vx, x1, s);
    crate::fxp::lemma_mul_fp_mono(y0, vy, c);
    crate::fxp::lemma_mul_fp_mono(vy, y1, c);
}

/// The bounding box bounds the body: every world-space vertex of a
/// well-formed body lies inside the axis-aligned box spanned by the four
/// points `aabb` returns.  This is what makes the broad-phase guarantees
/// speak about the polygons themselves: a body's vertices cannot leave
/// the cells its box is bucketed into.
#[verifier::rlimit(100)]
pub proof fn lemma_aabb_bounds(b: Body, i: int)
    requires
        well_formed(b),
        0 <= i < b.vertices@.len(),
    ensures
        ({
            let pts = aabb_spec(b);
            let wv = world_vertex(b, i);
            &&& imin(imin(pts[0].x as int, pts[1].x as int), imin(pts[2].x as int, pts[3].x as int))
                <= wv.x as int
            &&& wv.x as int <= imax(
                imax(pts[0].x as int, pts[1].x as int),
                imax(pts[2].x as int, pts[3].x as int),
            )
            &&& imin(imin(pts[0].y as int, pts[1].y as int), imin(pts[2].y as int, pts[3].y as int))
                <= wv.y as int
            &&& wv.y as int <= imax(
                imax(pts[0].y as int, pts[1].y as int),
                imax(pts[2].y as int, pts[3].y as int),
            )
        }),
{
    let pts = aabb_spec(b);
    let v = b.vertices@[i];
    let c = b.rotation.x as int;
    let s = b.rotation.y as int;
    let basex = crate::fxp::sat64(b.origin.x + b.position.x);
    let basey = crate::fxp::sat64(b.origin.y + b.position.y);
    if b.radius.is_some() {
        let r = b.radius.unwrap() as int;
        assert(vertex_in_box(b.vertices@[i], -r, r, -r, r));
        assert(r >= 0);
        lemma_rotate_bounded(b.rotation, v.x as int, v.y as int, -r, r, -r, r);
        assert((crate::vec2::v2sat(-r, -r)).x as int == -r && (crate::vec2::v2sat(-r, -r)).y as int
            == -r);
        assert((crate::vec2::v2sat(r, -r)).x as int == r && (crate::vec2::v2sat(r, -r)).y as int
            == -r);
        assert((crate::vec2::v2sat(r, r)).x as int == r && (crate::vec2::v2sat(r, r)).y as int
            == r);
        assert((crate::vec2::v2sat(-r, r)).x as int == -r && (crate::vec2::v2sat(-r, r)).y as int
            == r);
        lemma_box_bound(
            basex,
            crate::fxp::mul_fp(v.x as int, c) - crate::fxp::mul_fp(v.y as int, s),
            crate::fxp::mul_fp(-r, c) - crate::fxp::mul_fp(-r, s),
            crate::fxp::mul_fp(r, c) - crate::fxp::mul_fp(-r, s),
            crate::fxp::mul_fp(r, c) - crate::fxp::mul_fp(r, s),
            crate::fxp::mul_fp(-r, c) - crate::fxp::mul_fp(r, s),
            pts[0].x as int,
            pts[1].x as int,
            pts[2].x as int,
            pts[3].x as int,
        );
        lemma_box_bound(
            basey,
            crate::fxp::mul_fp(v.x as int, s) + crate::fxp::mul_fp(v.y as int, c),
            crate::fxp::mul_fp(-r, s) + crate::fxp::mul_fp(-r, c),
            crate::fxp::mul_fp(r, s) + crate::fxp::mul_fp(-r, c),
            crate::fxp::mul_fp(r, s) + crate::fxp::mul_fp(r, c),
            crate::fxp::mul_fp(-r, s) + crate::fxp::mul_fp(r, c),
            pts[0].y as int,
            pts[1].y as int,
            pts[2].y as int,
            pts[3].y as int,
        );
    } else {
        let w = b.width.unwrap() as int;
        let h = b.height.unwrap() as int;
        assert(vertex_in_box(b.vertices@[i], 0, w, 0, h));
        assert(w >= 0 && h >= 0);
        lemma_rotate_bounded(b.rotation, v.x as int, v.y as int, 0, w, 0, h);
        assert((crate::vec2::v2sat(0, 0)).x as int == 0 && (crate::vec2::v2sat(0, 0)).y as int
            == 0);
        assert((crate::vec2::v2sat(0, h)).x as int == 0 && (crate::vec2::v2sat(0, h)).y as int
            == h);
        assert((crate::vec2::v2sat(w, h)).x as int == w && (crate::vec2::v2sat(w, h)).y as int
            == h);
        assert((crate::vec2::v2sat(w, 0)).x as int == w && (crate::vec2::v2sat(w, 0)).y as int
            == 0);
        lemma_box_bound(
            basex,
            crate::fxp::mul_fp(v.x as int, c) - crate::fxp::mul_fp(v.y as int, s),
            crate::fxp::mul_fp(0, c) - crate::fxp::mul_fp(0, s),
            crate::fxp::mul_fp(0, c) - crate::fxp::mul_fp(h, s),
            crate::fxp::mul_fp(w, c) - crate::fxp::mul_fp(h, s),
            crate::fxp::mul_fp(w, c) - crate::fxp::mul_fp(0, s),
            pts[0].x as int,
            pts[1].x as int,
            pts[2].x as int,
            pts[3].x as int,
        );
        lemma_box_bound(
            basey,
            crate::fxp::mul_fp(v.x as int, s) + crate::fxp::mul_fp(v.y as int, c),
            crate::fxp::mul_fp(0, s) + crate::fxp::mul_fp(0, c),
            crate::fxp::mul_fp(0, s) + crate::fxp::mul_fp(h, c),
            crate::fxp::mul_fp(w, s) + crate::fxp::mul_fp(h, c),
            crate::fxp::mul_fp(w, s) + crate::fxp::mul_fp(0, c),
            pts[0].y as int,
            pts[1].y as int,
            pts[2].y as int,
            pts[3].y as int,
        );
    }
}

} // verus!
