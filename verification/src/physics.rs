//! Voxel-grid collision and swept-movement resolution.
//!
//! A [`Body`] occupies the half-open region `[position, position +
//! dimensions)`; its collision grid maps onto that region by the ratio of
//! cell count to world extent, floor-indexed.  The [`System`] owns a
//! registry of bodies and resolves a requested displacement for one of
//! them into the displacement actually permitted by every other body's
//! collision map.

use crate::geom::{
    axis_step, clamp_pos, div_to_zero, min_mag, spec_abs, spec_axis_step, spec_clamp_pos,
    spec_div_to_zero, spec_min_mag, spec_sign, spec_step, v3, v3_abs_sum, v3_add, v3_bounded,
    v3_sub, v3_zero, Vec3, MAX_CELLS, MAX_DIM, MAX_MOVE, MAX_POS, SUB, V3,
};
use crate::grid::Grid;
use vstd::arithmetic::div_mod::lemma_multiply_divide_lt;
use vstd::arithmetic::mul::lemma_mul_inequality;
use vstd::arithmetic::mul::lemma_mul_strict_inequality;
use vstd::prelude::*;

verus! {

/// How one voxel of a collision map answers a body trying to enter it.
#[derive(Clone, Copy, PartialEq, Eq, Structural, Debug)]
pub enum Collision {
    /// Fully passable.
    Air,
    /// Fully impassable: entering motion is absorbed.
    Solid,
    /// Passable; an extension point for bodies that lock in place, treated
    /// as air by movement resolution.
    Trap,
    /// Passable, dividing the displacement through it by the factor.
    Fluid(i64),
    /// Passable only by motion whose sign agrees, axis by axis, with the
    /// sign of the direction vector.
    Ledge(Vec3),
}

/// A fluid factor must be at least one; every other variant is fine.
pub open spec fn spec_collision_ok(c: Collision) -> bool {
    match c {
        Collision::Fluid(f) => f >= 1,
        _ => true,
    }
}

/// The permitted part of a displacement `v` through one voxel of kind
/// `c`, axis by axis.
pub open spec fn spec_respond(c: Collision, v: V3) -> V3 {
    match c {
        Collision::Air => v,
        Collision::Solid => v3_zero(),
        Collision::Trap => v,
        Collision::Fluid(f) => v3(
            spec_div_to_zero(v.x, f as int),
            spec_div_to_zero(v.y, f as int),
            spec_div_to_zero(v.z, f as int),
        ),
        Collision::Ledge(d) => v3(
            if spec_sign(d.x as int) == spec_sign(v.x) {
                v.x
            } else {
                0int
            },
            if spec_sign(d.y as int) == spec_sign(v.y) {
                v.y
            } else {
                0int
            },
            if spec_sign(d.z as int) == spec_sign(v.z) {
                v.z
            } else {
                0int
            },
        ),
    }
}

/// What one voxel permits never exceeds what was asked: each component
/// keeps its sign (or drops to zero) and cannot grow in magnitude.
pub proof fn lemma_respond_bounds(c: Collision, v: V3)
    requires
        spec_collision_ok(c),
    ensures
        spec_abs(spec_respond(c, v).x) <= spec_abs(v.x),
        spec_abs(spec_respond(c, v).y) <= spec_abs(v.y),
        spec_abs(spec_respond(c, v).z) <= spec_abs(v.z),
        spec_respond(c, v).x == 0 || spec_sign(spec_respond(c, v).x) == spec_sign(v.x),
        spec_respond(c, v).y == 0 || spec_sign(spec_respond(c, v).y) == spec_sign(v.y),
        spec_respond(c, v).z == 0 || spec_sign(spec_respond(c, v).z) == spec_sign(v.z),
{
    match c {
        Collision::Fluid(f) => {
            lemma_div_to_zero_bounds(v.x, f as int);
            lemma_div_to_zero_bounds(v.y, f as int);
            lemma_div_to_zero_bounds(v.z, f as int);
        },
        _ => {},
    }
}

/// Division toward zero by a positive factor shrinks magnitude and keeps
/// the sign (or yields zero).
pub proof fn lemma_div_to_zero_bounds(n: int, f: int)
    requires
        f >= 1,
    ensures
        spec_abs(spec_div_to_zero(n, f)) <= spec_abs(n),
        spec_div_to_zero(n, f) == 0 || spec_sign(spec_div_to_zero(n, f)) == spec_sign(n),
{
    if n >= 0 {
        vstd::arithmetic::div_mod::lemma_div_is_ordered_by_denominator(n, 1, f);
        vstd::arithmetic::div_mod::lemma_div_by_self(1);
        vstd::arithmetic::div_mod::lemma_div_basics(n);
        vstd::arithmetic::div_mod::lemma_div_pos_is_pos(n, f);
    } else {
        vstd::arithmetic::div_mod::lemma_div_is_ordered_by_denominator(-n, 1, f);
        vstd::arithmetic::div_mod::lemma_div_basics(-n);
        vstd::arithmetic::div_mod::lemma_div_pos_is_pos(-n, f);
    }
}

/// Computes the permitted part of displacement `v` through one voxel of
/// kind `c`.
pub fn respond(c: Collision, v: Vec3) -> (r: Vec3)
    requires
        spec_collision_ok(c),
        v3_bounded(v@, MAX_MOVE as int),
    ensures
        r@ == spec_respond(c, v@),
{
    match c {
        Collision::Air => v,
        Collision::Solid => Vec3::zero(),
        Collision::Trap => v,
        Collision::Fluid(f) => Vec3::new(
            div_to_zero(v.x, f),
            div_to_zero(v.y, f),
            div_to_zero(v.z, f),
        ),
        Collision::Ledge(d) => Vec3::new(
            if sign_i64(d.x) == sign_i64(v.x) {
                v.x
            } else {
                0
            },
            if sign_i64(d.y) == sign_i64(v.y) {
                v.y
            } else {
                0
            },
            if sign_i64(d.z) == sign_i64(v.z) {
                v.z
            } else {
                0
            },
        ),
    }
}

/// A physical body: a transform, a per-voxel collision map over its
/// occupied region, and a flag that nails it in place.
#[derive(Clone, PartialEq, Eq, Debug)]
pub struct Body {
    pub position: Vec3,
    pub rotation: Vec3,
    pub dimensions: Vec3,
    pub nailed: bool,
    pub collision: Grid<Collision>,
}

impl Body {
    /// A body the movement system can work with: position inside the
    /// world bounds, extents and cell counts within the supported sizes,
    /// a fully populated collision grid, and no fluid factor below one.
    pub open spec fn spec_wf(self) -> bool {
        &&& v3_bounded(self.position@, MAX_POS as int)
        &&& 0 <= self.dimensions.x <= MAX_DIM
        &&& 0 <= self.dimensions.y <= MAX_DIM
        &&& 0 <= self.dimensions.z <= MAX_DIM
        &&& self.collision.spec_wf()
        &&& self.collision.width <= MAX_CELLS
        &&& self.collision.height <= MAX_CELLS
        &&& self.collision.depth <= MAX_CELLS
        &&& forall|x: int, y: int, z: int|
            self.collision.spec_in_range(x, y, z) ==> spec_collision_ok(
                #[trigger] self.collision.spec_cell(x, y, z),
            )
    }

    /// Whether world point `p` lies inside the body's occupied region
    /// `[position, position + dimensions)`.
    pub open spec fn spec_region_contains(self, p: V3) -> bool {
        &&& self.position.x <= p.x < self.position.x + self.dimensions.x
        &&& self.position.y <= p.y < self.position.y + self.dimensions.y
        &&& self.position.z <= p.z < self.position.z + self.dimensions.z
    }

    /// The collision voxel governing world point `p` of a body whose
    /// region contains `p`: the ratio-mapped, floor-indexed grid cell, or
    /// air when that cell is missing from the grid.
    pub open spec fn spec_collision_lookup(self, p: V3) -> Collision {
        let ix = spec_cell_index(
            self.position.x as int,
            self.dimensions.x as int,
            self.collision.width as int,
            p.x,
        );
        let iy = spec_cell_index(
            self.position.y as int,
            self.dimensions.y as int,
            self.collision.height as int,
            p.y,
        );
        let iz = spec_cell_index(
            self.position.z as int,
            self.dimensions.z as int,
            self.collision.depth as int,
            p.z,
        );
        if self.collision.spec_in_range(ix, iy, iz) && self.collision.spec_present(ix, iy, iz) {
            self.collision.spec_cell(ix, iy, iz)
        } else {
            Collision::Air
        }
    }

    /// Creates a body from its transform, nailed flag and collision map.
    pub fn new(
        position: Vec3,
        dimension: Vec3,
        rotation: Vec3,
        nailed: bool,
        collision: Grid<Collision>,
    ) -> (r: Body)
        ensures
            r == (Body { position, rotation, dimensions: dimension, nailed, collision }),
    {
        Body { position, rotation, dimensions: dimension, nailed, collision }
    }

    pub fn position(&self) -> (r: &Vec3)
        ensures
            r == &self.position,
    {
        &self.position
    }

    pub fn rotation(&self) -> (r: &Vec3)
        ensures
            r == &self.rotation,
    {
        &self.rotation
    }

    pub fn dimensions(&self) -> (r: &Vec3)
        ensures
            r == &self.dimensions,
    {
        &self.dimensions
    }

    pub fn nailed(&self) -> (r: bool)
        ensures
            r == self.nailed,
    {
        self.nailed
    }

    pub fn collision(&self) -> (r: &Grid<Collision>)
        ensures
            r == &self.collision,
    {
        &self.collision
    }

    pub fn set_position(&mut self, x: i64, y: i64, z: i64)
        ensures
            *final(self) == (Body { position: Vec3 { x, y, z }, ..*old(self) }),
    {
        self.position = Vec3 { x, y, z };
    }

    pub fn set_rotation(&mut self, x: i64, y: i64, z: i64)
        ensures
            *final(self) == (Body { rotation: Vec3 { x, y, z }, ..*old(self) }),
    {
        self.rotation = Vec3 { x, y, z };
    }

    pub fn set_dimension(&mut self, x: i64, y: i64, z: i64)
        ensures
            *final(self) == (Body { dimensions: Vec3 { x, y, z }, ..*old(self) }),
    {
        self.dimensions = Vec3 { x, y, z };
    }

    /// Moves the body by the given offset, clamping each position
    /// component into the world bounds `[-MAX_POS, MAX_POS]`.
    pub fn translate(&mut self, x: i64, y: i64, z: i64)
        requires
            v3_bounded(old(self).position@, MAX_POS as int),
            -MAX_MOVE <= x <= MAX_MOVE,
            -MAX_MOVE <= y <= MAX_MOVE,
            -MAX_MOVE <= z <= MAX_MOVE,
        ensures
            *final(self) == (Body {
                position: Vec3 {
                    x: spec_clamp_pos(old(self).position.x + x) as i64,
                    y: spec_clamp_pos(old(self).position.y + y) as i64,
                    z: spec_clamp_pos(old(self).position.z + z) as i64,
                },
                ..*old(self)
            }),
            v3_bounded(final(self).position@, MAX_POS as int),
    {
        self.position = Vec3 {
            x: clamp_pos(self.position.x + x),
            y: clamp_pos(self.position.y + y),
            z: clamp_pos(self.position.z + z),
        };
    }

    /// The body's bounding box: the minimum and maximum corner of its
    /// occupied region.
    pub fn aabb(&self) -> (r: (Vec3, Vec3))
        requires
            self.spec_wf(),
        ensures
            r.0 == self.position,
            r.1@ == v3_add(self.position@, self.dimensions@),
    {
        (
            self.position,
            Vec3::new(
                self.position.x + self.dimensions.x,
                self.position.y + self.dimensions.y,
                self.position.z + self.dimensions.z,
            ),
        )
    }
}

/// Sign of a scalar: -1, 0 or 1.
pub fn sign_i64(n: i64) -> (r: i64)
    ensures
        r == spec_sign(n as int),
{
    if n < 0 {
        -1
    } else if n == 0 {
        0
    } else {
        1
    }
}

/// The voxel index that world coordinate `p` maps to, on one axis of a
/// body at `pos` of world extent `dim` carrying `cells` grid cells.
pub open spec fn spec_cell_index(pos: int, dim: int, cells: int, p: int) -> int {
    (p - pos) * cells / dim
}

/// Coordinates a probe during movement resolution can reach: a world
/// position, plus a body extent, plus one requested move, plus one step.
pub open spec fn spec_probe_coord_ok(p: V3) -> bool {
    v3_bounded(p, MAX_POS as int + MAX_DIM as int + MAX_MOVE as int + SUB as int)
}

/// Computes the grid index of a contained coordinate on one axis.
fn cell_index(pos: i64, dim: i64, cells: usize, p: i64) -> (i: usize)
    requires
        pos <= p < pos + dim,
        1 <= dim <= MAX_DIM,
        1 <= cells <= MAX_CELLS,
    ensures
        i == spec_cell_index(pos as int, dim as int, cells as int, p as int),
        i < cells,
{
    let dx: u64 = (p - pos) as u64;
    proof {
        lemma_mul_inequality(dx as int, MAX_DIM as int, cells as int);
        lemma_mul_inequality(cells as int, MAX_CELLS as int, MAX_DIM as int);
        assert(dx as int * cells as int <= MAX_DIM as int * MAX_CELLS as int) by (nonlinear_arith)
            requires
                0 <= dx as int <= MAX_DIM as int,
                0 <= cells as int <= MAX_CELLS as int;
    }
    let q: u64 = (dx * (cells as u64)) / (dim as u64);
    proof {
        if cells as int > 0 {
            lemma_mul_strict_inequality(dx as int, dim as int, cells as int);
            lemma_multiply_divide_lt(dx as int * cells as int, dim as int, cells as int);
        }
    }
    q as usize
}

/// Looks up the collision voxel of `b` that governs the contained world
/// point `p`.
fn body_collision_lookup(b: &Body, p: Vec3) -> (c: Collision)
    requires
        b.spec_wf(),
        b.spec_region_contains(p@),
        spec_probe_coord_ok(p@),
    ensures
        c == b.spec_collision_lookup(p@),
        spec_collision_ok(c),
{
    let ix = cell_index(b.position.x, b.dimensions.x, b.collision.width, p.x);
    let iy = cell_index(b.position.y, b.dimensions.y, b.collision.height, p.y);
    let iz = cell_index(b.position.z, b.dimensions.z, b.collision.depth, p.z);
    match b.collision.at(ix, iy, iz) {
        Some(c) => *c,
        None => Collision::Air,
    }
}

/// The bodies of a registry sequence, keys dropped.
pub open spec fn spec_body_seq(s: Seq<(String, Body)>) -> Seq<Body> {
    s.map_values(|pr: (String, Body)| pr.1)
}

/// Every body of a registry sequence is well-formed.
pub open spec fn spec_all_wf(s: Seq<(String, Body)>) -> bool {
    forall|i: int| 0 <= i < s.len() ==> (#[trigger] s[i]).1.spec_wf()
}

/// The collision type occupying world point `p`: the first body whose
/// region contains `p` answers through its collision map; outside every
/// region the world is air.
pub open spec fn spec_probe(bodies: Seq<Body>, p: V3) -> Collision
    decreases bodies.len(),
{
    if bodies.len() <= 0 {
        Collision::Air
    } else if bodies[0].spec_region_contains(p) {
        bodies[0].spec_collision_lookup(p)
    } else {
        spec_probe(bodies.drop_first(), p)
    }
}

/// Scans the registry for the collision type occupying world point `p`.
fn probe_at(bodies: &Vec<(String, Body)>, p: Vec3) -> (c: Collision)
    requires
        spec_all_wf(bodies@),
        spec_probe_coord_ok(p@),
    ensures
        c == spec_probe(spec_body_seq(bodies@), p@),
        spec_collision_ok(c),
{
    let ghost bseq: Seq<Body> = spec_body_seq(bodies@);
    proof {
        assert(bseq.skip(0) =~= bseq);
    }
    let n: usize = bodies.len();
    let mut i: usize = 0;
    while i < n
        invariant
            n == bodies@.len(),
            i <= n,
            spec_all_wf(bodies@),
            spec_probe_coord_ok(p@),
            bseq == spec_body_seq(bodies@),
            spec_probe(bseq, p@) == spec_probe(bseq.skip(i as int), p@),
        decreases n - i,
    {
        let b: &Body = &bodies[i].1;
        proof {
            assert(bseq[i as int] == bodies@[i as int].1);
            assert(bseq.skip(i as int)[0] == bseq[i as int]);
        }
        if b.position.x <= p.x && p.x < b.position.x + b.dimensions.x && b.position.y <= p.y && p.y
            < b.position.y + b.dimensions.y && b.position.z <= p.z && p.z < b.position.z
            + b.dimensions.z {
            let c = body_collision_lookup(b, p);
            return c;
        }
        proof {
            assert(bseq.skip(i as int).drop_first() =~= bseq.skip(i as int + 1));
        }
        i = i + 1;
    }
    proof {
        assert(bseq.skip(n as int) =~= Seq::<Body>::empty());
    }
    Collision::Air
}

/// Coordinates the marching loop itself can reach: a ray start plus at
/// most one full requested move.
pub open spec fn spec_march_coord_ok(p: V3) -> bool {
    v3_bounded(p, MAX_POS as int + MAX_DIM as int + MAX_MOVE as int)
}

/// What one bounded step from `current` applies, axis by axis: each
/// moving axis probes the world at the point the step would reach on that
/// axis alone, and that voxel's response governs the axis.
pub open spec fn spec_step_applied(bodies: Seq<Body>, current: V3, step: V3) -> V3 {
    v3(
        if step.x == 0 {
            0int
        } else {
            spec_respond(spec_probe(bodies, v3(current.x + step.x, current.y, current.z)), step).x
        },
        if step.y == 0 {
            0int
        } else {
            spec_respond(spec_probe(bodies, v3(current.x, current.y + step.y, current.z)), step).y
        },
        if step.z == 0 {
            0int
        } else {
            spec_respond(spec_probe(bodies, v3(current.x, current.y, current.z + step.z)), step).z
        },
    )
}

/// Computes what one bounded step from `current` applies.
fn step_toward(bodies: &Vec<(String, Body)>, current: Vec3, step: Vec3) -> (r: Vec3)
    requires
        spec_all_wf(bodies@),
        spec_march_coord_ok(current@),
        v3_bounded(step@, SUB as int),
    ensures
        r@ == spec_step_applied(spec_body_seq(bodies@), current@, step@),
        spec_abs(r@.x) <= spec_abs(step@.x),
        spec_abs(r@.y) <= spec_abs(step@.y),
        spec_abs(r@.z) <= spec_abs(step@.z),
        r@.x == 0 || spec_sign(r@.x) == spec_sign(step@.x),
        r@.y == 0 || spec_sign(r@.y) == spec_sign(step@.y),
        r@.z == 0 || spec_sign(r@.z) == spec_sign(step@.z),
{
    let mut r = Vec3::zero();
    if step.x != 0 {
        let c = probe_at(bodies, Vec3::new(current.x + step.x, current.y, current.z));
        proof {
            lemma_respond_bounds(c, step@);
        }
        r.x = respond(c, step).x;
    }
    if step.y != 0 {
        let c = probe_at(bodies, Vec3::new(current.x, current.y + step.y, current.z));
        proof {
            lemma_respond_bounds(c, step@);
        }
        r.y = respond(c, step).y;
    }
    if step.z != 0 {
        let c = probe_at(bodies, Vec3::new(current.x, current.y, current.z + step.z));
        proof {
            lemma_respond_bounds(c, step@);
        }
        r.z = respond(c, step).z;
    }
    r
}

/// How far a point marching from `current` toward `current + rem` gets,
/// probing the world before every bounded step: the step's response is
/// added to the travel and the full step is deducted from the remainder;
/// a fully absorbed step ends the march.
pub open spec fn spec_march(bodies: Seq<Body>, current: V3, rem: V3) -> V3
    decreases v3_abs_sum(rem),
    when v3_abs_sum(rem) >= 0
{
    if rem == v3_zero() {
        v3_zero()
    } else {
        let s = spec_step(rem);
        let a = spec_step_applied(bodies, current, s);
        if a == v3_zero() {
            v3_zero()
        } else {
            v3_add(a, spec_march(bodies, v3_add(current, a), v3_sub(rem, s)))
        }
    }
}

/// One axis of one marching iteration keeps its books: the travel grows
/// by the applied part, the remainder shrinks by the full step, and both
/// stay aligned with the request itself.
pub proof fn lemma_axis_account(d: int, rem: int, trav: int, a: int)
    requires
        spec_abs(trav) + spec_abs(rem) <= spec_abs(d),
        trav == 0 || spec_sign(trav) == spec_sign(d),
        rem == 0 || spec_sign(rem) == spec_sign(d),
        spec_abs(a) <= spec_abs(spec_axis_step(rem)),
        a == 0 || spec_sign(a) == spec_sign(spec_axis_step(rem)),
    ensures
        spec_abs(trav + a) + spec_abs(rem - spec_axis_step(rem)) <= spec_abs(d),
        trav + a == 0 || spec_sign(trav + a) == spec_sign(d),
        rem - spec_axis_step(rem) == 0 || spec_sign(rem - spec_axis_step(rem)) == spec_sign(d),
        spec_abs(rem - spec_axis_step(rem)) == spec_abs(rem) - spec_abs(spec_axis_step(rem)),
{
}

/// Marches a sample point from `start` along `delta`, querying the
/// world's collision maps at every bounded step, and returns the
/// displacement actually traveled.
#[verifier::rlimit(50)]
pub fn raycast(bodies: &Vec<(String, Body)>, start: Vec3, delta: Vec3) -> (traveled: Vec3)
    requires
        spec_all_wf(bodies@),
        v3_bounded(start@, MAX_POS as int + MAX_DIM as int),
        v3_bounded(delta@, MAX_MOVE as int),
    ensures
        traveled@ == spec_march(spec_body_seq(bodies@), start@, delta@),
        spec_abs(traveled@.x) <= spec_abs(delta@.x),
        spec_abs(traveled@.y) <= spec_abs(delta@.y),
        spec_abs(traveled@.z) <= spec_abs(delta@.z),
        traveled@.x == 0 || spec_sign(traveled@.x) == spec_sign(delta@.x),
        traveled@.y == 0 || spec_sign(traveled@.y) == spec_sign(delta@.y),
        traveled@.z == 0 || spec_sign(traveled@.z) == spec_sign(delta@.z),
{
    let ghost bseq: Seq<Body> = spec_body_seq(bodies@);
    let mut current: Vec3 = start;
    let mut rem: Vec3 = delta;
    let mut trav: Vec3 = Vec3::zero();
    while !(rem.x == 0 && rem.y == 0 && rem.z == 0)
        invariant
            spec_all_wf(bodies@),
            bseq == spec_body_seq(bodies@),
            v3_bounded(start@, MAX_POS as int + MAX_DIM as int),
            v3_bounded(delta@, MAX_MOVE as int),
            spec_march(bseq, start@, delta@) == v3_add(trav@, spec_march(bseq, current@, rem@)),
            current@ == v3_add(start@, trav@),
            spec_abs(trav@.x) + spec_abs(rem@.x) <= spec_abs(delta@.x),
            spec_abs(trav@.y) + spec_abs(rem@.y) <= spec_abs(delta@.y),
            spec_abs(trav@.z) + spec_abs(rem@.z) <= spec_abs(delta@.z),
            trav@.x == 0 || spec_sign(trav@.x) == spec_sign(delta@.x),
            trav@.y == 0 || spec_sign(trav@.y) == spec_sign(delta@.y),
            trav@.z == 0 || spec_sign(trav@.z) == spec_sign(delta@.z),
            rem@.x == 0 || spec_sign(rem@.x) == spec_sign(delta@.x),
            rem@.y == 0 || spec_sign(rem@.y) == spec_sign(delta@.y),
            rem@.z == 0 || spec_sign(rem@.z) == spec_sign(delta@.z),
        decreases v3_abs_sum(rem@),
    {
        let step = Vec3::new(axis_step(rem.x), axis_step(rem.y), axis_step(rem.z));
        proof {
            assert(step@ == spec_step(rem@));
        }
        let applied = step_toward(bodies, current, step);
        if applied.x == 0 && applied.y == 0 && applied.z == 0 {
            proof {
                assert(spec_march(bseq, current@, rem@) == v3_zero());
            }
            return trav;
        }
        proof {
            assert(spec_march(bseq, current@, rem@) == v3_add(
                applied@,
                spec_march(bseq, v3_add(current@, applied@), v3_sub(rem@, step@)),
            ));
            lemma_axis_account(delta@.x, rem@.x, trav@.x, applied@.x);
            lemma_axis_account(delta@.y, rem@.y, trav@.y, applied@.y);
            lemma_axis_account(delta@.z, rem@.z, trav@.z, applied@.z);
        }
        current = Vec3::new(current.x + applied.x, current.y + applied.y, current.z + applied.z);
        trav = Vec3::new(trav.x + applied.x, trav.y + applied.y, trav.z + applied.z);
        rem = Vec3::new(rem.x - step.x, rem.y - step.y, rem.z - step.z);
    }
    proof {
        assert(spec_march(bseq, current@, rem@) == v3_zero());
    }
    trav
}

/// How many whole world units cover an extent of `dim` subunits.
pub open spec fn spec_unit_count(dim: int) -> int {
    (dim + SUB - 1) / SUB as int
}

/// The sample offsets on one axis for a body of extent `dim` moving by
/// `v` on that axis: the trailing edge when moving forward, the leading
/// edge when moving backward, every unit slice when not moving on the
/// axis at all.  Empty when the body has no extent on the axis.
pub open spec fn spec_axis_offsets(dim: int, v: int) -> Seq<int> {
    if dim <= 0 {
        Seq::empty()
    } else if v > 0 {
        seq![dim - 1]
    } else if v < 0 {
        seq![0int]
    } else {
        Seq::new(spec_unit_count(dim) as nat, |k: int| k * SUB as int)
    }
}

/// Computes the sample offsets on one axis.
fn axis_offsets(dim: i64, v: i64) -> (r: Vec<i64>)
    requires
        0 <= dim <= MAX_DIM,
    ensures
        r@.len() == spec_axis_offsets(dim as int, v as int).len(),
        forall|k: int|
            0 <= k < r@.len() ==> r@[k] == spec_axis_offsets(dim as int, v as int)[k],
        forall|k: int| 0 <= k < r@.len() ==> 0 <= #[trigger] r@[k] < MAX_DIM,
{
    let mut r: Vec<i64> = Vec::new();
    if dim <= 0 {
        return r;
    }
    if v > 0 {
        r.push(dim - 1);
    } else if v < 0 {
        r.push(0);
    } else {
        let units: i64 = (dim + SUB - 1) / SUB;
        proof {
            assert(units == spec_unit_count(dim as int));
            assert(spec_unit_count(dim as int) * (SUB as int) < dim + (SUB as int)) by (nonlinear_arith)
                requires
                    units == spec_unit_count(dim as int),
                    spec_unit_count(dim as int) == (dim + SUB - 1) / SUB as int,
                    dim >= 1,
                    SUB as int == 1024;
        }
        let mut k: i64 = 0;
        while k < units
            invariant
                v == 0,
                0 <= k <= units,
                1 <= dim <= MAX_DIM,
                units == spec_unit_count(dim as int),
                units * (SUB as int) < dim + (SUB as int),
                r@.len() == k,
                forall|j: int|
                    0 <= j < k ==> #[trigger] r@[j] == spec_axis_offsets(dim as int, v as int)[j],
                forall|j: int| 0 <= j < k ==> 0 <= #[trigger] r@[j] < MAX_DIM,
            decreases units - k,
        {
            proof {
                assert(k * (SUB as int) >= 0) by (nonlinear_arith)
                    requires
                        k >= 0;
                assert(k * (SUB as int) <= (units - 1) * (SUB as int)) by (nonlinear_arith)
                    requires
                        k <= units - 1,
                        SUB as int == 1024;
            }
            r.push(k * SUB);
            k = k + 1;
        }
    }
    r
}

/// The componentwise pick of the smaller-magnitude travel.
pub open spec fn v3_min_mag(a: V3, b: V3) -> V3 {
    v3(spec_min_mag(a.x, b.x), spec_min_mag(a.y, b.y), spec_min_mag(a.z, b.z))
}

/// Folds the rays of one `(ox, oy)` column over the depth offsets.
pub open spec fn spec_resolve_z(
    bodies: Seq<Body>,
    pos: V3,
    ox: int,
    oy: int,
    zs: Seq<int>,
    v: V3,
    acc: V3,
) -> V3
    decreases zs.len(),
{
    if zs.len() <= 0 {
        acc
    } else {
        let t = spec_march(bodies, v3_add(pos, v3(ox, oy, zs[0])), v);
        spec_resolve_z(bodies, pos, ox, oy, zs.drop_first(), v, v3_min_mag(acc, t))
    }
}

/// Folds the rays of one `ox` slice over the height offsets.
pub open spec fn spec_resolve_y(
    bodies: Seq<Body>,
    pos: V3,
    ox: int,
    ys: Seq<int>,
    zs: Seq<int>,
    v: V3,
    acc: V3,
) -> V3
    decreases ys.len(),
{
    if ys.len() <= 0 {
        acc
    } else {
        spec_resolve_y(
            bodies,
            pos,
            ox,
            ys.drop_first(),
            zs,
            v,
            spec_resolve_z(bodies, pos, ox, ys[0], zs, v, acc),
        )
    }
}

/// Folds all sample rays over the width offsets.
pub open spec fn spec_resolve_x(
    bodies: Seq<Body>,
    pos: V3,
    xs: Seq<int>,
    ys: Seq<int>,
    zs: Seq<int>,
    v: V3,
    acc: V3,
) -> V3
    decreases xs.len(),
{
    if xs.len() <= 0 {
        acc
    } else {
        spec_resolve_x(
            bodies,
            pos,
            xs.drop_first(),
            ys,
            zs,
            v,
            spec_resolve_y(bodies, pos, xs[0], ys, zs, v, acc),
        )
    }
}

/// A body with no extent on some axis yields no sample rays at all.
pub open spec fn spec_degenerate(b: Body, v: V3) -> bool {
    ||| spec_axis_offsets(b.dimensions.x as int, v.x).len() == 0
    ||| spec_axis_offsets(b.dimensions.y as int, v.y).len() == 0
    ||| spec_axis_offsets(b.dimensions.z as int, v.z).len() == 0
}

/// The displacement permitted to body `b` requesting `v` against the
/// world `bodies`: the componentwise smallest-magnitude travel over every
/// sample ray of the body's leading face, starting from the request
/// itself; a body with no sample rays is granted the full request.
pub open spec fn spec_resolve(bodies: Seq<Body>, b: Body, v: V3) -> V3 {
    if spec_degenerate(b, v) {
        v
    } else {
        spec_resolve_x(
            bodies,
            b.position@,
            spec_axis_offsets(b.dimensions.x as int, v.x),
            spec_axis_offsets(b.dimensions.y as int, v.y),
            spec_axis_offsets(b.dimensions.z as int, v.z),
            v,
            v,
        )
    }
}

/// Reported when movement is requested for an identifier that no
/// registered body carries.
#[derive(Clone, Copy, PartialEq, Eq, Structural, Debug)]
pub enum MoveError {
    UnknownBodyId,
}

/// What one movement request came to: the displacement actually applied,
/// and whether the body was degenerate (no sample rays, request applied
/// unresolved).
#[derive(Clone, Copy, PartialEq, Eq, Structural, Debug)]
pub struct MoveReport {
    pub applied: Vec3,
    pub degenerate: bool,
}

/// There is an entry carrying `id`.
pub open spec fn spec_has_id(s: Seq<(String, Body)>, id: Seq<char>) -> bool {
    exists|i: int| 0 <= i < s.len() && (#[trigger] s[i]).0@ == id
}

/// The index of the entry carrying `id`.
pub open spec fn spec_index_of(s: Seq<(String, Body)>, id: Seq<char>) -> int {
    choose|i: int| 0 <= i < s.len() && (#[trigger] s[i]).0@ == id
}

/// No two entries carry the same identifier.
pub open spec fn spec_ids_unique(s: Seq<(String, Body)>) -> bool {
    forall|i: int, j: int|
        0 <= i < j < s.len() ==> (#[trigger] s[i]).0@ != (#[trigger] s[j]).0@
}

/// The registry of bodies, keyed by identifier, and the movement
/// resolver over them.
pub struct System {
    pub bodies: Vec<(String, Body)>,
}

impl System {
    /// Every registered body is well-formed and no identifier repeats.
    pub open spec fn spec_wf(self) -> bool {
        spec_all_wf(self.bodies@) && spec_ids_unique(self.bodies@)
    }

    /// Creates an empty registry.
    pub fn new() -> (r: System)
        ensures
            r.bodies@.len() == 0,
            r.spec_wf(),
    {
        System { bodies: Vec::new() }
    }

    /// The index of the entry carrying `key`, scanning forward.
    fn find_index(&self, key: &String) -> (r: Option<usize>)
        ensures
            r matches Some(i) ==> i < self.bodies@.len() && self.bodies@[i as int].0@ == key@,
            r is None ==> !spec_has_id(self.bodies@, key@),
    {
        let n: usize = self.bodies.len();
        let mut i: usize = 0;
        while i < n
            invariant
                n == self.bodies@.len(),
                i <= n,
                forall|j: int| 0 <= j < i ==> (#[trigger] self.bodies@[j]).0@ != key@,
            decreases n - i,
        {
            if self.bodies[i].0 == *key {
                return Some(i);
            }
            i = i + 1;
        }
        None
    }

    /// Registers `body` under `id`, replacing and returning the body that
    /// carried the identifier before, if any.
    pub fn insert(&mut self, id: String, body: Body) -> (prev: Option<Body>)
        requires
            old(self).spec_wf(),
            body.spec_wf(),
        ensures
            final(self).spec_wf(),
            spec_has_id(old(self).bodies@, id@) ==> {
                let i = spec_index_of(old(self).bodies@, id@);
                &&& prev == Some(old(self).bodies@[i].1)
                &&& final(self).bodies@ == old(self).bodies@.update(i, (id, body))
            },
            !spec_has_id(old(self).bodies@, id@) ==> prev is None && final(self).bodies@ == old(
                self,
            ).bodies@.push((id, body)),
    {
        match self.find_index(&id) {
            Some(i) => {
                let ghost pre: Seq<(String, Body)> = self.bodies@;
                proof {
                    assert(spec_has_id(pre, id@));
                    lemma_unique_index(pre, id@, i as int);
                }
                let prev_entry = self.bodies.remove(i);
                self.bodies.insert(i, (id, body));
                proof {
                    assert(self.bodies@ =~= pre.update(i as int, (id, body)));
                    lemma_update_same_id_wf(pre, i as int, id, body);
                }
                Some(prev_entry.1)
            },
            None => {
                let ghost pre: Seq<(String, Body)> = self.bodies@;
                self.bodies.push((id, body));
                proof {
                    assert forall|i: int, j: int| 0 <= i < j < self.bodies@.len() implies (
                    #[trigger] self.bodies@[i]).0@ != (#[trigger] self.bodies@[j]).0@ by {
                        if j == pre.len() as int {
                            assert(self.bodies@[j].0@ == id@);
                            assert(!spec_has_id(pre, id@));
                            assert(self.bodies@[i] == pre[i]);
                        }
                    }
                    assert forall|i: int| 0 <= i < self.bodies@.len() implies (
                    #[trigger] self.bodies@[i]).1.spec_wf() by {
                        if i < pre.len() as int {
                            assert(self.bodies@[i] == pre[i]);
                        }
                    }
                }
                None
            },
        }
    }

    /// Unregisters and returns the body carrying `id`, if any.
    pub fn remove(&mut self, id: &str) -> (r: Option<Body>)
        requires
            old(self).spec_wf(),
        ensures
            final(self).spec_wf(),
            spec_has_id(old(self).bodies@, id@) ==> {
                let i = spec_index_of(old(self).bodies@, id@);
                &&& r == Some(old(self).bodies@[i].1)
                &&& final(self).bodies@ == old(self).bodies@.remove(i)
            },
            !spec_has_id(old(self).bodies@, id@) ==> r is None && final(self).bodies@ == old(
                self,
            ).bodies@,
    {
        let key: String = id.to_owned();
        match self.find_index(&key) {
            Some(i) => {
                let ghost pre: Seq<(String, Body)> = self.bodies@;
                proof {
                    assert(spec_has_id(pre, key@));
                    lemma_unique_index(pre, key@, i as int);
                    lemma_remove_wf(pre, i as int);
                }
                let entry = self.bodies.remove(i);
                Some(entry.1)
            },
            None => None,
        }
    }

    /// A borrowed view of the body carrying `id`, if any.
    pub fn get(&self, id: &str) -> (r: Option<&Body>)
        requires
            self.spec_wf(),
        ensures
            spec_has_id(self.bodies@, id@) ==> (r matches Some(b) && *b == self.bodies@[
                spec_index_of(self.bodies@, id@)
            ].1),
            !spec_has_id(self.bodies@, id@) ==> r is None,
    {
        let key: String = id.to_owned();
        match self.find_index(&key) {
            Some(i) => {
                proof {
                    lemma_unique_index(self.bodies@, key@, i as int);
                }
                Some(&self.bodies[i].1)
            },
            None => None,
        }
    }

    /// The collision type occupying world point `p`, scanning every
    /// registered body.
    pub fn collision_at(&self, p: Vec3) -> (c: Collision)
        requires
            self.spec_wf(),
            spec_probe_coord_ok(p@),
        ensures
            c == spec_probe(spec_body_seq(self.bodies@), p@),
    {
        probe_at(&self.bodies, p)
    }

    /// Resolves the requested displacement for the body carrying `id`
    /// against every other registered body and translates the body by
    /// what the world permits.
    ///
    /// A zero request returns at once without looking anything up; an
    /// unknown identifier is reported and leaves the registry unchanged;
    /// a nailed body ignores the request and stays in place; a body with
    /// no sample rays is granted the full request, flagged degenerate.
    /// The registry holds exactly the same identifiers afterward, on
    /// every path.
    #[verifier::rlimit(100)]
    pub fn move_body(&mut self, id: &str, vector: Vec3) -> (r: Result<MoveReport, MoveError>)
        requires
            old(self).spec_wf(),
            v3_bounded(vector@, MAX_MOVE as int),
        ensures
            final(self).spec_wf(),
            vector@ == v3_zero() ==> (r matches Ok(rep) && rep.applied@ == v3_zero()
                && !rep.degenerate) && final(self).bodies@ == old(self).bodies@,
            vector@ != v3_zero() && !spec_has_id(old(self).bodies@, id@) ==> r == Err::<
                MoveReport,
                MoveError,
            >(MoveError::UnknownBodyId) && final(self).bodies@ == old(self).bodies@,
            vector@ != v3_zero() && spec_has_id(old(self).bodies@, id@) ==> spec_move_outcome(
                old(self).bodies@,
                id@,
                vector@,
                r,
                final(self).bodies@,
            ),
    {
        if vector.is_zero() {
            return Ok(MoveReport { applied: Vec3::zero(), degenerate: false });
        }
        let key: String = id.to_owned();
        let idx: usize = match self.find_index(&key) {
            Some(i) => i,
            None => {
                return Err(MoveError::UnknownBodyId);
            },
        };
        let ghost pre: Seq<(String, Body)> = self.bodies@;
        proof {
            lemma_unique_index(pre, id@, idx as int);
            lemma_remove_wf(pre, idx as int);
        }
        let entry: (String, Body) = self.bodies.remove(idx);
        let name: String = entry.0;
        let mut body: Body = entry.1;
        let ghost others: Seq<Body> = spec_body_seq(self.bodies@);
        proof {
            assert(body == pre[idx as int].1);
            assert(body.spec_wf());
        }
        if body.nailed {
            self.bodies.insert(idx, (name, body));
            proof {
                assert(self.bodies@ =~= pre);
            }
            return Ok(MoveReport { applied: Vec3::zero(), degenerate: false });
        }
        let xs: Vec<i64> = axis_offsets(body.dimensions.x, vector.x);
        let ys: Vec<i64> = axis_offsets(body.dimensions.y, vector.y);
        let zs: Vec<i64> = axis_offsets(body.dimensions.z, vector.z);
        let ghost gxs: Seq<int> = spec_axis_offsets(body.dimensions.x as int, vector@.x);
        let ghost gys: Seq<int> = spec_axis_offsets(body.dimensions.y as int, vector@.y);
        let ghost gzs: Seq<int> = spec_axis_offsets(body.dimensions.z as int, vector@.z);
        if xs.len() == 0 || ys.len() == 0 || zs.len() == 0 {
            body.translate(vector.x, vector.y, vector.z);
            proof {
                assert(body == spec_moved_body(pre[idx as int].1, vector@));
                assert(body.spec_wf());
                lemma_update_same_id_wf(pre, idx as int, name, body);
            }
            self.bodies.insert(idx, (name, body));
            proof {
                assert(self.bodies@ =~= pre.update(idx as int, (pre[idx as int].0, body)));
                assert(spec_degenerate(pre[idx as int].1, vector@));
                assert(spec_resolve(others, pre[idx as int].1, vector@) == vector@);
            }
            return Ok(MoveReport { applied: vector, degenerate: true });
        }
        let ghost resolve_target: V3 = spec_resolve_x(
            others,
            body.position@,
            gxs,
            gys,
            gzs,
            vector@,
            vector@,
        );
        proof {
            assert(!spec_degenerate(pre[idx as int].1, vector@));
            assert(gxs.skip(0) =~= gxs);
        }
        let mut acc: Vec3 = vector;
        let mut ix: usize = 0;
        while ix < xs.len()
            invariant
                ix <= xs.len(),
                spec_all_wf(self.bodies@),
                others == spec_body_seq(self.bodies@),
                body.spec_wf(),
                v3_bounded(vector@, MAX_MOVE as int),
                v3_bounded(acc@, MAX_MOVE as int),
                xs@.len() == gxs.len(),
                forall|k: int| 0 <= k < xs@.len() ==> #[trigger] xs@[k] == gxs[k],
                forall|k: int| 0 <= k < xs@.len() ==> 0 <= #[trigger] xs@[k] < MAX_DIM,
                ys@.len() == gys.len(),
                forall|k: int| 0 <= k < ys@.len() ==> #[trigger] ys@[k] == gys[k],
                forall|k: int| 0 <= k < ys@.len() ==> 0 <= #[trigger] ys@[k] < MAX_DIM,
                zs@.len() == gzs.len(),
                forall|k: int| 0 <= k < zs@.len() ==> #[trigger] zs@[k] == gzs[k],
                forall|k: int| 0 <= k < zs@.len() ==> 0 <= #[trigger] zs@[k] < MAX_DIM,
                resolve_target == spec_resolve_x(
                    others,
                    body.position@,
                    gxs.skip(ix as int),
                    gys,
                    gzs,
                    vector@,
                    acc@,
                ),
            decreases xs@.len() - ix,
        {
            let ox: i64 = xs[ix];
            proof {
                assert(gxs.skip(ix as int)[0] == gxs[ix as int]);
                assert(gxs.skip(ix as int).drop_first() =~= gxs.skip(ix as int + 1));
                assert(gys.skip(0) =~= gys);
            }
            let mut iy: usize = 0;
            while iy < ys.len()
                invariant
                    iy <= ys.len(),
                    ix < xs@.len(),
                    spec_all_wf(self.bodies@),
                    others == spec_body_seq(self.bodies@),
                    body.spec_wf(),
                    v3_bounded(vector@, MAX_MOVE as int),
                    v3_bounded(acc@, MAX_MOVE as int),
                    xs@.len() == gxs.len(),
                    forall|k: int| 0 <= k < xs@.len() ==> #[trigger] xs@[k] == gxs[k],
                    forall|k: int| 0 <= k < xs@.len() ==> 0 <= #[trigger] xs@[k] < MAX_DIM,
                    ys@.len() == gys.len(),
                    forall|k: int| 0 <= k < ys@.len() ==> #[trigger] ys@[k] == gys[k],
                    forall|k: int| 0 <= k < ys@.len() ==> 0 <= #[trigger] ys@[k] < MAX_DIM,
                    zs@.len() == gzs.len(),
                    forall|k: int| 0 <= k < zs@.len() ==> #[trigger] zs@[k] == gzs[k],
                    forall|k: int| 0 <= k < zs@.len() ==> 0 <= #[trigger] zs@[k] < MAX_DIM,
                    ox == gxs[ix as int],
                    0 <= ox < MAX_DIM,
                    resolve_target == spec_resolve_x(
                        others,
                        body.position@,
                        gxs.skip(ix as int + 1),
                        gys,
                        gzs,
                        vector@,
                        spec_resolve_y(
                            others,
                            body.position@,
                            ox as int,
                            gys.skip(iy as int),
                            gzs,
                            vector@,
                            acc@,
                        ),
                    ),
                decreases ys@.len() - iy,
            {
                let oy: i64 = ys[iy];
                proof {
                    assert(gys.skip(iy as int)[0] == gys[iy as int]);
                    assert(gys.skip(iy as int).drop_first() =~= gys.skip(iy as int + 1));
                    assert(gzs.skip(0) =~= gzs);
                }
                let mut iz: usize = 0;
                while iz < zs.len()
                    invariant
                        iz <= zs.len(),
                        ix < xs@.len(),
                        iy < ys@.len(),
                        spec_all_wf(self.bodies@),
                        others == spec_body_seq(self.bodies@),
                        body.spec_wf(),
                        v3_bounded(vector@, MAX_MOVE as int),
                        v3_bounded(acc@, MAX_MOVE as int),
                        xs@.len() == gxs.len(),
                        forall|k: int| 0 <= k < xs@.len() ==> #[trigger] xs@[k] == gxs[k],
                        forall|k: int| 0 <= k < xs@.len() ==> 0 <= #[trigger] xs@[k] < MAX_DIM,
                        ys@.len() == gys.len(),
                        forall|k: int| 0 <= k < ys@.len() ==> #[trigger] ys@[k] == gys[k],
                        forall|k: int| 0 <= k < ys@.len() ==> 0 <= #[trigger] ys@[k] < MAX_DIM,
                        zs@.len() == gzs.len(),
                        forall|k: int| 0 <= k < zs@.len() ==> #[trigger] zs@[k] == gzs[k],
                        forall|k: int| 0 <= k < zs@.len() ==> 0 <= #[trigger] zs@[k] < MAX_DIM,
                        ox == gxs[ix as int],
                        0 <= ox < MAX_DIM,
                        oy == gys[iy as int],
                        0 <= oy < MAX_DIM,
                        resolve_target == spec_resolve_x(
                            others,
                            body.position@,
                            gxs.skip(ix as int + 1),
                            gys,
                            gzs,
                            vector@,
                            spec_resolve_y(
                                others,
                                body.position@,
                                ox as int,
                                gys.skip(iy as int + 1),
                                gzs,
                                vector@,
                                spec_resolve_z(
                                    others,
                                    body.position@,
                                    ox as int,
                                    oy as int,
                                    gzs.skip(iz as int),
                                    vector@,
                                    acc@,
                                ),
                            ),
                        ),
                    decreases zs@.len() - iz,
                {
                    let oz: i64 = zs[iz];
                    proof {
                        assert(gzs.skip(iz as int)[0] == gzs[iz as int]);
                        assert(gzs.skip(iz as int).drop_first() =~= gzs.skip(iz as int + 1));
                    }
                    let start: Vec3 = Vec3::new(
                        body.position.x + ox,
                        body.position.y + oy,
                        body.position.z + oz,
                    );
                    let t: Vec3 = raycast(&self.bodies, start, vector);
                    acc = Vec3::new(min_mag(acc.x, t.x), min_mag(acc.y, t.y), min_mag(acc.z, t.z));
                    iz = iz + 1;
                }
                proof {
                    assert(gzs.skip(zs@.len() as int) =~= Seq::<int>::empty());
                }
                iy = iy + 1;
            }
            proof {
                assert(gys.skip(ys@.len() as int) =~= Seq::<int>::empty());
            }
            ix = ix + 1;
        }
        proof {
            assert(gxs.skip(xs@.len() as int) =~= Seq::<int>::empty());
            assert(acc@ == resolve_target);
            assert(acc@ == spec_resolve(others, pre[idx as int].1, vector@));
        }
        body.translate(acc.x, acc.y, acc.z);
        proof {
            assert(body == spec_moved_body(pre[idx as int].1, acc@));
            assert(body.spec_wf());
            lemma_update_same_id_wf(pre, idx as int, name, body);
        }
        self.bodies.insert(idx, (name, body));
        proof {
            assert(self.bodies@ =~= pre.update(idx as int, (pre[idx as int].0, body)));
        }
        Ok(MoveReport { applied: acc, degenerate: false })
    }
}

/// The body `b` moved by `applied`, its position clamped into the world
/// bounds.
pub open spec fn spec_moved_body(b: Body, applied: V3) -> Body {
    Body {
        position: Vec3 {
            x: spec_clamp_pos(b.position.x + applied.x) as i64,
            y: spec_clamp_pos(b.position.y + applied.y) as i64,
            z: spec_clamp_pos(b.position.z + applied.z) as i64,
        },
        ..b
    }
}

/// What a movement request for a registered body must come to: a nailed
/// body stays exactly as it was; any other body is translated by the
/// resolved displacement and the report carries that displacement and
/// the degenerate flag.
pub open spec fn spec_move_outcome(
    pre: Seq<(String, Body)>,
    id: Seq<char>,
    v: V3,
    r: Result<MoveReport, MoveError>,
    post: Seq<(String, Body)>,
) -> bool {
    let i = spec_index_of(pre, id);
    let b = pre[i].1;
    let others = spec_body_seq(pre.remove(i));
    if b.nailed {
        &&& (r matches Ok(rep) && rep.applied@ == v3_zero() && !rep.degenerate)
        &&& post == pre
    } else {
        let applied = spec_resolve(others, b, v);
        &&& (r matches Ok(rep) && rep.applied@ == applied && rep.degenerate == spec_degenerate(
            b,
            v,
        ))
        &&& post == pre.update(i, (pre[i].0, spec_moved_body(b, applied)))
    }
}

/// A ledge filters motion by sign, axis by axis: a component whose sign
/// agrees with the ledge's direction passes unchanged, and one that
/// disagrees is blocked.
pub proof fn lemma_ledge_blocks_by_sign(d: Vec3, v: V3)
    ensures
        spec_sign(d.x as int) == spec_sign(v.x) ==> spec_respond(Collision::Ledge(d), v).x == v.x,
        spec_sign(d.x as int) != spec_sign(v.x) ==> spec_respond(Collision::Ledge(d), v).x == 0,
        spec_sign(d.y as int) == spec_sign(v.y) ==> spec_respond(Collision::Ledge(d), v).y == v.y,
        spec_sign(d.y as int) != spec_sign(v.y) ==> spec_respond(Collision::Ledge(d), v).y == 0,
        spec_sign(d.z as int) == spec_sign(v.z) ==> spec_respond(Collision::Ledge(d), v).z == v.z,
        spec_sign(d.z as int) != spec_sign(v.z) ==> spec_respond(Collision::Ledge(d), v).z == 0,
{
}

/// What a ledge does to one axis depends on that axis alone: requests
/// that agree on an axis are answered the same there, whatever the other
/// two components are.
pub proof fn lemma_ledge_axis_independent(d: Vec3, v: V3, w: V3)
    ensures
        v.x == w.x ==> spec_respond(Collision::Ledge(d), v).x == spec_respond(
            Collision::Ledge(d),
            w,
        ).x,
        v.y == w.y ==> spec_respond(Collision::Ledge(d), v).y == spec_respond(
            Collision::Ledge(d),
            w,
        ).y,
        v.z == w.z ==> spec_respond(Collision::Ledge(d), v).z == spec_respond(
            Collision::Ledge(d),
            w,
        ).z,
{
}

/// A marching step whose destination on an axis is a solid voxel applies
/// nothing on that axis: the destination is tested before the step is
/// committed, so solid ground is never entered from that side.
pub proof fn lemma_solid_blocks_axis(bodies: Seq<Body>, current: V3, step: V3)
    ensures
        spec_probe(bodies, v3(current.x + step.x, current.y, current.z)) == Collision::Solid
            ==> spec_step_applied(bodies, current, step).x == 0,
        spec_probe(bodies, v3(current.x, current.y + step.y, current.z)) == Collision::Solid
            ==> spec_step_applied(bodies, current, step).y == 0,
        spec_probe(bodies, v3(current.x, current.y, current.z + step.z)) == Collision::Solid
            ==> spec_step_applied(bodies, current, step).z == 0,
{
}

/// A single-axis march whose very first step would enter solid ground
/// travels nowhere at all.
pub proof fn lemma_solid_stops_march(bodies: Seq<Body>, current: V3, rem: V3)
    requires
        rem.y == 0,
        rem.z == 0,
        rem.x != 0,
        spec_probe(bodies, v3(current.x + spec_axis_step(rem.x), current.y, current.z))
            == Collision::Solid,
    ensures
        spec_march(bodies, current, rem) == v3_zero(),
{
    let s = spec_step(rem);
    let a = spec_step_applied(bodies, current, s);
    assert(a == v3_zero());
}

/// A registry of well-formed bodies never answers a malformed collision
/// (in particular, no fluid factor below one).
pub proof fn lemma_probe_ok(bodies: Seq<Body>)
    requires
        forall|i: int| 0 <= i < bodies.len() ==> (#[trigger] bodies[i]).spec_wf(),
    ensures
        forall|p: V3| spec_collision_ok(#[trigger] spec_probe(bodies, p)),
    decreases bodies.len(),
{
    if bodies.len() == 0 {
    } else {
        assert forall|p: V3| spec_collision_ok(#[trigger] spec_probe(bodies, p)) by {
            if bodies[0].spec_region_contains(p) {
                assert(bodies[0].spec_wf());
            } else {
                lemma_probe_ok(bodies.drop_first());
                assert(spec_collision_ok(spec_probe(bodies.drop_first(), p)));
            }
        }
    }
}

/// A sample point marching along the x axis toward a solid voxel column
/// never reaches it: the destination of every step is tested first, so
/// the march stops strictly short of the wall, whatever stands in
/// between.
pub proof fn lemma_march_stops_short_of_wall(bodies: Seq<Body>, current: V3, rem: V3, wall: int)
    requires
        forall|p: V3| spec_collision_ok(#[trigger] spec_probe(bodies, p)),
        rem.y == 0,
        rem.z == 0,
        rem.x >= 0,
        current.x < wall,
        forall|p: V3|
            wall <= p.x < wall + SUB as int && p.y == current.y && p.z == current.z ==> (
            #[trigger] spec_probe(bodies, p)) == Collision::Solid,
    ensures
        current.x + spec_march(bodies, current, rem).x < wall,
    decreases v3_abs_sum(rem),
{
    if rem == v3_zero() {
    } else {
        let s = spec_step(rem);
        assert(s.y == 0 && s.z == 0 && 0 < s.x <= SUB as int && s.x <= rem.x);
        let a = spec_step_applied(bodies, current, s);
        let dest = v3(current.x + s.x, current.y, current.z);
        if dest.x >= wall {
            assert(spec_probe(bodies, dest) == Collision::Solid);
            assert(a == v3_zero());
        } else {
            lemma_respond_bounds(spec_probe(bodies, dest), s);
            assert(0 <= a.x <= s.x);
            assert(a.y == 0 && a.z == 0);
            if a == v3_zero() {
            } else {
                lemma_march_stops_short_of_wall(bodies, v3_add(current, a), v3_sub(rem, s), wall);
            }
        }
    }
}

/// Marching through a world whose every probe answers air travels the
/// full remaining distance.
pub proof fn lemma_march_all_air(bodies: Seq<Body>, current: V3, rem: V3)
    requires
        forall|p: V3| #[trigger] spec_probe(bodies, p) == Collision::Air,
    ensures
        spec_march(bodies, current, rem) == rem,
    decreases v3_abs_sum(rem),
{
    if rem == v3_zero() {
    } else {
        let s = spec_step(rem);
        let a = spec_step_applied(bodies, current, s);
        assert(a == s);
        assert(s != v3_zero());
        lemma_march_all_air(bodies, v3_add(current, s), v3_sub(rem, s));
        assert(v3_add(s, v3_sub(rem, s)) == rem);
    }
}

/// An empty registry answers air everywhere.
pub proof fn lemma_probe_empty(bodies: Seq<Body>)
    requires
        bodies.len() == 0,
    ensures
        forall|p: V3| #[trigger] spec_probe(bodies, p) == Collision::Air,
{
}

/// A registry whose every collision cell is air answers air everywhere.
pub proof fn lemma_probe_air_world(bodies: Seq<Body>)
    requires
        forall|i: int, x: int, y: int, z: int|
            0 <= i < bodies.len() && bodies[i].collision.spec_in_range(x, y, z) ==> (
            #[trigger] bodies[i].collision.spec_cell(x, y, z)) == Collision::Air,
    ensures
        forall|p: V3| #[trigger] spec_probe(bodies, p) == Collision::Air,
    decreases bodies.len(),
{
    if bodies.len() == 0 {
    } else {
        assert forall|p: V3| #[trigger] spec_probe(bodies, p) == Collision::Air by {
            if bodies[0].spec_region_contains(p) {
                assert(bodies[0] == bodies[0]);
            } else {
                lemma_probe_air_world(bodies.drop_first());
                assert(spec_probe(bodies.drop_first(), p) == Collision::Air);
            }
        }
    }
}

/// The depth fold keeps an accumulator of `v` when every ray travels
/// `v` itself.
proof fn lemma_resolve_z_all_air(
    bodies: Seq<Body>,
    pos: V3,
    ox: int,
    oy: int,
    zs: Seq<int>,
    v: V3,
)
    requires
        forall|p: V3| #[trigger] spec_probe(bodies, p) == Collision::Air,
    ensures
        spec_resolve_z(bodies, pos, ox, oy, zs, v, v) == v,
    decreases zs.len(),
{
    if zs.len() <= 0 {
    } else {
        lemma_march_all_air(bodies, v3_add(pos, v3(ox, oy, zs[0])), v);
        assert(v3_min_mag(v, v) == v);
        lemma_resolve_z_all_air(bodies, pos, ox, oy, zs.drop_first(), v);
    }
}

/// The height fold keeps an accumulator of `v` over an all-air world.
proof fn lemma_resolve_y_all_air(
    bodies: Seq<Body>,
    pos: V3,
    ox: int,
    ys: Seq<int>,
    zs: Seq<int>,
    v: V3,
)
    requires
        forall|p: V3| #[trigger] spec_probe(bodies, p) == Collision::Air,
    ensures
        spec_resolve_y(bodies, pos, ox, ys, zs, v, v) == v,
    decreases ys.len(),
{
    if ys.len() <= 0 {
    } else {
        lemma_resolve_z_all_air(bodies, pos, ox, ys[0], zs, v);
        lemma_resolve_y_all_air(bodies, pos, ox, ys.drop_first(), zs, v);
    }
}

/// The width fold keeps an accumulator of `v` over an all-air world.
proof fn lemma_resolve_x_all_air(
    bodies: Seq<Body>,
    pos: V3,
    xs: Seq<int>,
    ys: Seq<int>,
    zs: Seq<int>,
    v: V3,
)
    requires
        forall|p: V3| #[trigger] spec_probe(bodies, p) == Collision::Air,
    ensures
        spec_resolve_x(bodies, pos, xs, ys, zs, v, v) == v,
    decreases xs.len(),
{
    if xs.len() <= 0 {
    } else {
        lemma_resolve_y_all_air(bodies, pos, xs[0], ys, zs, v);
        lemma_resolve_x_all_air(bodies, pos, xs.drop_first(), ys, zs, v);
    }
}

/// Through a world whose every probe answers air — in particular, an
/// empty registry — a movement request resolves to exactly the requested
/// vector.
pub proof fn lemma_resolve_all_air(bodies: Seq<Body>, b: Body, v: V3)
    requires
        forall|p: V3| #[trigger] spec_probe(bodies, p) == Collision::Air,
    ensures
        spec_resolve(bodies, b, v) == v,
{
    if spec_degenerate(b, v) {
    } else {
        lemma_resolve_x_all_air(
            bodies,
            b.position@,
            spec_axis_offsets(b.dimensions.x as int, v.x),
            spec_axis_offsets(b.dimensions.y as int, v.y),
            spec_axis_offsets(b.dimensions.z as int, v.z),
            v,
        );
    }
}

/// Marching a whole number of units along one axis through fluid that
/// divides by two travels exactly half the requested distance: each unit
/// step applies half a unit and consumes a full one.
pub proof fn lemma_march_fluid_halves(bodies: Seq<Body>, current: V3, n: int)
    requires
        forall|p: V3| #[trigger] spec_probe(bodies, p) == Collision::Fluid(2),
        0 <= n,
    ensures
        spec_march(bodies, current, v3(n * SUB as int, 0, 0)) == v3(n * (SUB as int) / 2, 0, 0),
    decreases n,
{
    let rem = v3(n * SUB as int, 0, 0);
    if n == 0 {
        assert(rem == v3_zero());
    } else {
        assert(n * SUB as int >= 1 * SUB as int) by (nonlinear_arith)
            requires
                n >= 1,
                SUB as int == 1024;
        let s = spec_step(rem);
        assert(s == v3(SUB as int, 0, 0));
        let a = spec_step_applied(bodies, current, s);
        assert(spec_respond(Collision::Fluid(2), s).x == SUB as int / 2);
        assert(a == v3(SUB as int / 2, 0, 0));
        assert(a != v3_zero());
        assert(v3_sub(rem, s) == v3((n - 1) * SUB as int, 0, 0)) by {
            assert(n * SUB as int - SUB as int == (n - 1) * SUB as int) by (nonlinear_arith);
        }
        lemma_march_fluid_halves(bodies, v3_add(current, a), n - 1);
        assert(n * (SUB as int) / 2 == SUB as int / 2 + (n - 1) * (SUB as int) / 2) by (
        nonlinear_arith)
            requires
                n >= 1,
                SUB as int == 1024;
    }
}

/// The depth fold through factor-two fluid settles on half the request.
proof fn lemma_resolve_z_fluid(
    bodies: Seq<Body>,
    pos: V3,
    ox: int,
    oy: int,
    zs: Seq<int>,
    n: int,
    acc: V3,
)
    requires
        forall|p: V3| #[trigger] spec_probe(bodies, p) == Collision::Fluid(2),
        0 <= n,
        acc == v3(n * SUB as int, 0, 0) || acc == v3(n * (SUB as int) / 2, 0, 0),
    ensures
        spec_resolve_z(bodies, pos, ox, oy, zs, v3(n * SUB as int, 0, 0), acc) == (if zs.len()
            == 0 {
            acc
        } else {
            v3(n * (SUB as int) / 2, 0, 0)
        }),
    decreases zs.len(),
{
    if zs.len() == 0 {
    } else {
        lemma_march_fluid_halves(bodies, v3_add(pos, v3(ox, oy, zs[0])), n);
        assert(0 <= n * (SUB as int) / 2 <= n * SUB as int) by (nonlinear_arith)
            requires
                n >= 0,
                SUB as int == 1024;
        lemma_resolve_z_fluid(
            bodies,
            pos,
            ox,
            oy,
            zs.drop_first(),
            n,
            v3(n * (SUB as int) / 2, 0, 0),
        );
    }
}

/// The height fold through factor-two fluid settles on half the
/// request.
proof fn lemma_resolve_y_fluid(
    bodies: Seq<Body>,
    pos: V3,
    ox: int,
    ys: Seq<int>,
    zs: Seq<int>,
    n: int,
    acc: V3,
)
    requires
        forall|p: V3| #[trigger] spec_probe(bodies, p) == Collision::Fluid(2),
        0 <= n,
        zs.len() >= 1,
        acc == v3(n * SUB as int, 0, 0) || acc == v3(n * (SUB as int) / 2, 0, 0),
    ensures
        spec_resolve_y(bodies, pos, ox, ys, zs, v3(n * SUB as int, 0, 0), acc) == (if ys.len()
            == 0 {
            acc
        } else {
            v3(n * (SUB as int) / 2, 0, 0)
        }),
    decreases ys.len(),
{
    if ys.len() == 0 {
    } else {
        lemma_resolve_z_fluid(bodies, pos, ox, ys[0], zs, n, acc);
        lemma_resolve_y_fluid(
            bodies,
            pos,
            ox,
            ys.drop_first(),
            zs,
            n,
            v3(n * (SUB as int) / 2, 0, 0),
        );
    }
}

/// The width fold through factor-two fluid settles on half the request.
proof fn lemma_resolve_x_fluid(
    bodies: Seq<Body>,
    pos: V3,
    xs: Seq<int>,
    ys: Seq<int>,
    zs: Seq<int>,
    n: int,
    acc: V3,
)
    requires
        forall|p: V3| #[trigger] spec_probe(bodies, p) == Collision::Fluid(2),
        0 <= n,
        ys.len() >= 1,
        zs.len() >= 1,
        acc == v3(n * SUB as int, 0, 0) || acc == v3(n * (SUB as int) / 2, 0, 0),
    ensures
        spec_resolve_x(bodies, pos, xs, ys, zs, v3(n * SUB as int, 0, 0), acc) == (if xs.len()
            == 0 {
            acc
        } else {
            v3(n * (SUB as int) / 2, 0, 0)
        }),
    decreases xs.len(),
{
    if xs.len() == 0 {
    } else {
        lemma_resolve_y_fluid(bodies, pos, xs[0], ys, zs, n, acc);
        lemma_resolve_x_fluid(
            bodies,
            pos,
            xs.drop_first(),
            ys,
            zs,
            n,
            v3(n * (SUB as int) / 2, 0, 0),
        );
    }
}

/// A whole-unit request along one axis through a world whose every probe
/// answers fluid of factor two resolves to exactly half the requested
/// distance on that axis, and to nothing on the others.
pub proof fn lemma_resolve_fluid_halves(bodies: Seq<Body>, b: Body, n: int)
    requires
        forall|p: V3| #[trigger] spec_probe(bodies, p) == Collision::Fluid(2),
        0 <= n,
        !spec_degenerate(b, v3(n * SUB as int, 0, 0)),
    ensures
        spec_resolve(bodies, b, v3(n * SUB as int, 0, 0)) == v3(n * (SUB as int) / 2, 0, 0),
{
    let v = v3(n * SUB as int, 0, 0);
    let xs = spec_axis_offsets(b.dimensions.x as int, v.x);
    let ys = spec_axis_offsets(b.dimensions.y as int, v.y);
    let zs = spec_axis_offsets(b.dimensions.z as int, v.z);
    lemma_resolve_x_fluid(bodies, b.position@, xs, ys, zs, n, v);
}

/// The depth fold never grows the accumulator's magnitude on any axis.
proof fn lemma_resolve_z_mono(
    bodies: Seq<Body>,
    pos: V3,
    ox: int,
    oy: int,
    zs: Seq<int>,
    v: V3,
    acc: V3,
)
    ensures
        spec_abs(spec_resolve_z(bodies, pos, ox, oy, zs, v, acc).x) <= spec_abs(acc.x),
        spec_abs(spec_resolve_z(bodies, pos, ox, oy, zs, v, acc).y) <= spec_abs(acc.y),
        spec_abs(spec_resolve_z(bodies, pos, ox, oy, zs, v, acc).z) <= spec_abs(acc.z),
    decreases zs.len(),
{
    if zs.len() <= 0 {
    } else {
        let t = spec_march(bodies, v3_add(pos, v3(ox, oy, zs[0])), v);
        lemma_resolve_z_mono(bodies, pos, ox, oy, zs.drop_first(), v, v3_min_mag(acc, t));
    }
}

/// The height fold never grows the accumulator's magnitude on any axis.
proof fn lemma_resolve_y_mono(
    bodies: Seq<Body>,
    pos: V3,
    ox: int,
    ys: Seq<int>,
    zs: Seq<int>,
    v: V3,
    acc: V3,
)
    ensures
        spec_abs(spec_resolve_y(bodies, pos, ox, ys, zs, v, acc).x) <= spec_abs(acc.x),
        spec_abs(spec_resolve_y(bodies, pos, ox, ys, zs, v, acc).y) <= spec_abs(acc.y),
        spec_abs(spec_resolve_y(bodies, pos, ox, ys, zs, v, acc).z) <= spec_abs(acc.z),
    decreases ys.len(),
{
    if ys.len() <= 0 {
    } else {
        lemma_resolve_z_mono(bodies, pos, ox, ys[0], zs, v, acc);
        lemma_resolve_y_mono(
            bodies,
            pos,
            ox,
            ys.drop_first(),
            zs,
            v,
            spec_resolve_z(bodies, pos, ox, ys[0], zs, v, acc),
        );
    }
}

/// The width fold never grows the accumulator's magnitude on any axis.
proof fn lemma_resolve_x_mono(
    bodies: Seq<Body>,
    pos: V3,
    xs: Seq<int>,
    ys: Seq<int>,
    zs: Seq<int>,
    v: V3,
    acc: V3,
)
    ensures
        spec_abs(spec_resolve_x(bodies, pos, xs, ys, zs, v, acc).x) <= spec_abs(acc.x),
        spec_abs(spec_resolve_x(bodies, pos, xs, ys, zs, v, acc).y) <= spec_abs(acc.y),
        spec_abs(spec_resolve_x(bodies, pos, xs, ys, zs, v, acc).z) <= spec_abs(acc.z),
    decreases xs.len(),
{
    if xs.len() <= 0 {
    } else {
        lemma_resolve_y_mono(bodies, pos, xs[0], ys, zs, v, acc);
        lemma_resolve_x_mono(
            bodies,
            pos,
            xs.drop_first(),
            ys,
            zs,
            v,
            spec_resolve_y(bodies, pos, xs[0], ys, zs, v, acc),
        );
    }
}

/// Requesting forward motion along x toward a solid wall plane resolves
/// to a displacement that keeps the body's sampled leading edge
/// strictly short of the wall: the region it occupies never overlaps
/// the solid voxels.
pub proof fn lemma_resolve_stops_short_of_wall(bodies: Seq<Body>, b: Body, v: V3, wall: int)
    requires
        forall|p: V3| spec_collision_ok(#[trigger] spec_probe(bodies, p)),
        v.x > 0,
        v.y == 0,
        v.z == 0,
        !spec_degenerate(b, v),
        b.position.x + b.dimensions.x - 1 < wall,
        forall|p: V3|
            wall <= p.x < wall + SUB as int ==> (#[trigger] spec_probe(bodies, p))
                == Collision::Solid,
    ensures
        b.position.x + b.dimensions.x - 1 + spec_resolve(bodies, b, v).x < wall,
{
    let pos = b.position@;
    let xs = spec_axis_offsets(b.dimensions.x as int, v.x);
    let ys = spec_axis_offsets(b.dimensions.y as int, v.y);
    let zs = spec_axis_offsets(b.dimensions.z as int, v.z);
    assert(xs == seq![b.dimensions.x - 1]);
    let ox = b.dimensions.x - 1;
    let oy = ys[0];
    let oz = zs[0];
    let start = v3_add(pos, v3(ox as int, oy, oz));
    lemma_march_stops_short_of_wall(bodies, start, v, wall);
    let t = spec_march(bodies, start, v);
    let first = v3_min_mag(v, t);
    assert(spec_abs(first.x) <= spec_abs(t.x));
    assert(spec_resolve_z(bodies, pos, ox as int, oy, zs, v, v) == spec_resolve_z(
        bodies,
        pos,
        ox as int,
        oy,
        zs.drop_first(),
        v,
        first,
    ));
    lemma_resolve_z_mono(bodies, pos, ox as int, oy, zs.drop_first(), v, first);
    let after_z = spec_resolve_z(bodies, pos, ox as int, oy, zs, v, v);
    let after_y = spec_resolve_y(bodies, pos, ox as int, ys, zs, v, v);
    assert(spec_abs(after_z.x) <= spec_abs(t.x));
    assert(after_y == spec_resolve_y(bodies, pos, ox as int, ys.drop_first(), zs, v, after_z));
    lemma_resolve_y_mono(bodies, pos, ox as int, ys.drop_first(), zs, v, after_z);
    assert(spec_abs(after_y.x) <= spec_abs(t.x));
    assert(xs.drop_first() =~= Seq::<int>::empty());
    assert(spec_resolve_x(bodies, pos, xs, ys, zs, v, v) == spec_resolve_x(
        bodies,
        pos,
        Seq::<int>::empty(),
        ys,
        zs,
        v,
        after_y,
    ));
    assert(spec_resolve(bodies, b, v) == after_y);
    assert(spec_abs(spec_resolve(bodies, b, v).x) <= spec_abs(t.x));
    assert(t.x >= 0 && start.x + t.x < wall) by {
        lemma_march_bounds_x(bodies, start, v);
    }
}

/// How far a march travels on x never exceeds the remainder and keeps
/// its sign.
proof fn lemma_march_bounds_x(bodies: Seq<Body>, current: V3, rem: V3)
    requires
        forall|p: V3| spec_collision_ok(#[trigger] spec_probe(bodies, p)),
        rem.x >= 0,
    ensures
        0 <= spec_march(bodies, current, rem).x <= rem.x,
    decreases v3_abs_sum(rem),
{
    if rem == v3_zero() {
    } else {
        let s = spec_step(rem);
        let a = spec_step_applied(bodies, current, s);
        if a == v3_zero() {
        } else {
            if s.x != 0 {
                lemma_respond_bounds(
                    spec_probe(bodies, v3(current.x + s.x, current.y, current.z)),
                    s,
                );
            }
            lemma_march_bounds_x(bodies, v3_add(current, a), v3_sub(rem, s));
        }
    }
}

/// Whatever a movement request for a registered body comes to, the
/// registry holds exactly the same identifiers afterward, in the same
/// order: resolution never loses a body, on any path.
pub proof fn lemma_move_preserves_ids(
    pre: Seq<(String, Body)>,
    id: Seq<char>,
    v: V3,
    r: Result<MoveReport, MoveError>,
    post: Seq<(String, Body)>,
)
    requires
        spec_ids_unique(pre),
        spec_has_id(pre, id),
        spec_move_outcome(pre, id, v, r, post),
    ensures
        post.len() == pre.len(),
        forall|k: int| 0 <= k < pre.len() ==> (#[trigger] post[k]).0 == pre[k].0,
{
    let i = spec_index_of(pre, id);
    assert(0 <= i < pre.len() && pre[i].0@ == id);
    if pre[i].1.nailed {
    } else {
        assert forall|k: int| 0 <= k < pre.len() implies (#[trigger] post[k]).0 == pre[k].0 by {
            if k != i {
                assert(post[k] == pre[k]);
            }
        }
    }
}

/// In a registry without repeated identifiers, an entry found to carry
/// `id` stands at the one index `spec_index_of` names.
pub proof fn lemma_unique_index(s: Seq<(String, Body)>, id: Seq<char>, i: int)
    requires
        spec_ids_unique(s),
        0 <= i < s.len(),
        s[i].0@ == id,
    ensures
        spec_has_id(s, id),
        spec_index_of(s, id) == i,
{
    assert(spec_has_id(s, id));
    let j = spec_index_of(s, id);
    assert(0 <= j < s.len() && s[j].0@ == id);
    if i < j {
        assert(s[i].0@ != s[j].0@);
    } else if j < i {
        assert(s[j].0@ != s[i].0@);
    }
}

/// Replacing the entry at `i` by one carrying the same identifier keeps
/// the registry well-formed.
proof fn lemma_update_same_id_wf(s: Seq<(String, Body)>, i: int, id: String, body: Body)
    requires
        spec_all_wf(s),
        spec_ids_unique(s),
        body.spec_wf(),
        0 <= i < s.len(),
        s[i].0@ == id@,
    ensures
        spec_all_wf(s.update(i, (id, body))),
        spec_ids_unique(s.update(i, (id, body))),
{
    let t = s.update(i, (id, body));
    assert forall|k: int| 0 <= k < t.len() implies (#[trigger] t[k]).1.spec_wf() by {
        if k != i {
            assert(t[k] == s[k]);
        }
    }
    assert forall|k: int, l: int| 0 <= k < l < t.len() implies (#[trigger] t[k]).0@ != (
    #[trigger] t[l]).0@ by {
        assert(s[k].0@ != s[l].0@);
        if k != i {
            assert(t[k] == s[k]);
        }
        if l != i {
            assert(t[l] == s[l]);
        }
    }
}

/// Removing an entry keeps the registry well-formed.
proof fn lemma_remove_wf(s: Seq<(String, Body)>, i: int)
    requires
        spec_all_wf(s),
        spec_ids_unique(s),
        0 <= i < s.len(),
    ensures
        spec_all_wf(s.remove(i)),
        spec_ids_unique(s.remove(i)),
{
    let t = s.remove(i);
    assert forall|k: int| 0 <= k < t.len() implies (#[trigger] t[k]).1.spec_wf() by {
        if k < i {
            assert(t[k] == s[k]);
        } else {
            assert(t[k] == s[k + 1]);
        }
    }
    assert forall|k: int, l: int| 0 <= k < l < t.len() implies (#[trigger] t[k]).0@ != (
    #[trigger] t[l]).0@ by {
        if k < i && l < i {
            assert(t[k] == s[k] && t[l] == s[l]);
        } else if k < i {
            assert(t[k] == s[k] && t[l] == s[l + 1]);
        } else {
            assert(t[k] == s[k + 1] && t[l] == s[l + 1]);
        }
    }
}

} // verus!
