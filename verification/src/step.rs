//! The per-body physics step: integrate drag, acceleration and speed
//! limits, resolve terrain collisions axis by axis, advance the position,
//! and report body-vs-body overlaps.

use vstd::prelude::*;

use crate::aabb::Aabb;
use crate::broadphase::{
    axis_range, cell_coord, cell_lattice, enumerate_lattice, spec_axis_range, CellPos,
    Terrain,
};
use crate::num::{abs_int, fmul, isqrt_u128, spec_fmul, trunc_div, COORD_LIMIT, SCALE};
use crate::swept::{
    advance_along, entry_minus_epsilon, spec_swept, swept_aabb_collide, CollisionResult,
    Frac, EPSILON_DEN,
};
use crate::vec3::Vec3Fix;

verus! {

/// Largest position magnitude a body may start a tick with.
pub const POS_LIMIT: i64 = 1_000_000_000_000;

/// Largest velocity or acceleration magnitude a body may start a tick with.
pub const VEL_LIMIT: i64 = 1_000_000_000_000;

/// Largest magnitude of a (local-space) hitbox corner.
pub const HITBOX_LIMIT: i64 = 1_000_000_000;

/// A face of a block, by the axis direction its outward normal points in.
#[derive(Clone, Copy, Debug, PartialEq, Eq, Structural)]
pub enum Direction {
    Down,
    Up,
    North,
    South,
    West,
    East,
}

impl Direction {
    /// The bit this face occupies in a face bitmask.
    pub open spec fn spec_bit(self) -> u8 {
        match self {
            Direction::Down => 1u8,
            Direction::Up => 2u8,
            Direction::North => 4u8,
            Direction::South => 8u8,
            Direction::West => 16u8,
            Direction::East => 32u8,
        }
    }

    pub fn bit(self) -> (r: u8)
        ensures
            r == self.spec_bit(),
    {
        match self {
            Direction::Down => 1,
            Direction::Up => 2,
            Direction::North => 4,
            Direction::South => 8,
            Direction::West => 16,
            Direction::East => 32,
        }
    }
}

/// The faces of `s`, folded into one bitmask.
pub open spec fn spec_face_mask(s: Seq<Direction>) -> u8
    decreases s.len(),
{
    if s.len() == 0 {
        0u8
    } else {
        spec_face_mask(s.drop_last()) | s.last().spec_bit()
    }
}

/// Which contact faces zero the body's whole velocity: a bitmask with one
/// bit per block face.
#[derive(Clone, Copy, Debug, PartialEq, Eq, Structural)]
pub struct StopOnBlockCollision(pub u8);

impl StopOnBlockCollision {
    /// Stops the body when it contacts any of the given faces.
    pub fn new(faces: Vec<Direction>) -> (r: StopOnBlockCollision)
        ensures
            r.0 == spec_face_mask(faces@),
    {
        let mut mask: u8 = 0;
        let mut i: usize = 0;
        while i < faces.len()
            invariant
                0 <= i <= faces@.len(),
                mask == spec_face_mask(faces@.subrange(0, i as int)),
            decreases faces@.len() - i,
        {
            proof {
                assert(faces@.subrange(0, i + 1 as int).drop_last() =~= faces@.subrange(
                    0,
                    i as int,
                ));
                assert(faces@.subrange(0, i + 1 as int).last() == faces@[i as int]);
            }
            mask = mask | faces[i].bit();
            i += 1;
        }
        proof {
            assert(faces@.subrange(0, faces@.len() as int) =~= faces@);
        }
        StopOnBlockCollision(mask)
    }

    /// Stops the body when it lands on the ground (the top face of a block).
    pub fn ground() -> (r: StopOnBlockCollision)
        ensures
            r.0 == Direction::Up.spec_bit(),
    {
        StopOnBlockCollision(2)
    }

    /// Stops the body on contact with any face.
    pub fn all() -> (r: StopOnBlockCollision)
        ensures
            r.0 == u8::MAX,
    {
        StopOnBlockCollision(u8::MAX)
    }

    /// Whether contact with `face` stops the body.
    pub fn should_stop(&self, face: Direction) -> (r: bool)
        ensures
            r == (self.0 & face.spec_bit() != 0),
    {
        self.0 & face.bit() != 0
    }

    /// Whether any face of the given bitmask stops the body.
    pub fn should_stop_bitmap(&self, bitmap: u8) -> (r: bool)
        ensures
            r == (self.0 & bitmap != 0),
    {
        self.0 & bitmap != 0
    }
}

/// Opt-in to body-vs-body collision detection, with an optional hitbox
/// (local to the body's position) overriding the body's own.
#[derive(Clone, Copy, Debug, PartialEq, Eq, Structural)]
pub struct EntityCollisionConfig {
    pub entity_collider_hitbox: Option<Aabb>,
}

/// Opt-in to body-vs-terrain collision resolution, with an optional hitbox
/// (local to the body's position) overriding the body's own.
#[derive(Clone, Copy, Debug, PartialEq, Eq, Structural)]
pub struct BlockCollisionConfig {
    pub block_collider_hitbox: Option<Aabb>,
}

/// Emitted when two bodies overlap; `entity1` is the body whose step
/// detected the overlap.
#[derive(Clone, Copy, Debug, PartialEq, Eq, Structural)]
pub struct EntityEntityCollisionEvent {
    pub entity1: u64,
    pub entity2: u64,
}

/// Emitted when a body strikes terrain: which body, which cell, and a
/// bitmask of the block faces contacted in that resolution pass.
#[derive(Clone, Copy, Debug, PartialEq, Eq, Structural)]
pub struct EntityBlockCollisionEvent {
    pub entity: u64,
    pub block_pos: crate::broadphase::CellPos,
    pub block_face_bitmap: u8,
}

/// The full per-body state the step reads and writes.  Optional fields opt
/// the body into the matching feature; a body missing the state a subsystem
/// needs is skipped by that subsystem for the tick.
#[derive(Clone, Copy, Debug)]
pub struct BodyState {
    pub id: u64,
    pub position: Vec3Fix,
    pub velocity: Vec3Fix,
    pub acceleration: Option<Vec3Fix>,
    pub drag: Option<Vec3Fix>,
    pub speed_limit: Option<i64>,
    pub hitbox: Aabb,
    pub stop_on_block_collision: Option<StopOnBlockCollision>,
    pub entity_collision: Option<EntityCollisionConfig>,
    pub block_collision: Option<BlockCollisionConfig>,
}

impl BodyState {
    /// The bounds under which a tick is free of overflow: position within
    /// [`POS_LIMIT`], velocity and acceleration within [`VEL_LIMIT`], drag
    /// nonnegative (drag slows; it never feeds energy in), hitboxes
    /// well-formed within [`HITBOX_LIMIT`].
    pub open spec fn wf(self) -> bool {
        &&& self.position.within(POS_LIMIT as int)
        &&& self.velocity.within(VEL_LIMIT as int)
        &&& match self.acceleration {
            Some(a) => a.within(VEL_LIMIT as int),
            None => true,
        }
        &&& match self.drag {
            Some(d) => 0 <= d.x <= COORD_LIMIT && 0 <= d.y <= COORD_LIMIT && 0 <= d.z
                <= COORD_LIMIT,
            None => true,
        }
        &&& match self.speed_limit {
            Some(l) => 0 <= l <= VEL_LIMIT,
            None => true,
        }
        &&& self.hitbox.wf() && self.hitbox.min.within(HITBOX_LIMIT as int)
            && self.hitbox.max.within(HITBOX_LIMIT as int)
        &&& match self.entity_collision {
            Some(c) => match c.entity_collider_hitbox {
                Some(h) => h.wf() && h.min.within(HITBOX_LIMIT as int) && h.max.within(
                    HITBOX_LIMIT as int,
                ),
                None => true,
            },
            None => true,
        }
        &&& match self.block_collision {
            Some(c) => match c.block_collider_hitbox {
                Some(h) => h.wf() && h.min.within(HITBOX_LIMIT as int) && h.max.within(
                    HITBOX_LIMIT as int,
                ),
                None => true,
            },
            None => true,
        }
    }
}

/// The integer square root: the unique `r >= 0` with `r * r <= n` and
/// `n < (r + 1) * (r + 1)`.
pub open spec fn spec_isqrt(n: int) -> int {
    choose|r: int| 0 <= r && #[trigger] (r * r) <= n && n < (r + 1) * (r + 1)
}

/// Any value with the square-root property is the square root.
pub proof fn lemma_isqrt_unique(n: int, r: int)
    requires
        0 <= r,
        r * r <= n,
        n < (r + 1) * (r + 1),
    ensures
        spec_isqrt(n) == r,
{
    let c = spec_isqrt(n);
    assert(0 <= c && c * c <= n && n < (c + 1) * (c + 1)) by {
        assert(exists|q: int| 0 <= q && #[trigger] (q * q) <= n && n < (q + 1) * (q + 1))
            by {
            assert(0 <= r && r * r <= n && n < (r + 1) * (r + 1));
        }
    }
    if c < r {
        assert((c + 1) * (c + 1) <= r * r) by (nonlinear_arith)
            requires
                0 <= c,
                c + 1 <= r,
        ;
    }
    if r < c {
        assert((r + 1) * (r + 1) <= c * c) by (nonlinear_arith)
            requires
                0 <= r,
                r + 1 <= c,
        ;
    }
}

/// The drag configuration is admissible for a tick of length `dt`: on each
/// axis it removes at most the whole velocity over that tick, keeping the
/// factor `1 - drag * dt` within `[0, 1]`.  This is the model's one bound
/// on drag; how much drag per second is admissible follows from the tick
/// length alone.
pub open spec fn spec_drag_bounded(drag: Option<Vec3Fix>, dt: int) -> bool {
    match drag {
        Some(d) => spec_fmul(d.x as int, dt) <= SCALE && spec_fmul(d.y as int, dt) <= SCALE
            && spec_fmul(d.z as int, dt) <= SCALE,
        None => true,
    }
}

/// The velocity after the drag stage: each component multiplied by
/// `1 - drag * dt` (in fixed point), truncated toward zero.
pub open spec fn spec_after_drag(v: Vec3Fix, drag: Option<Vec3Fix>, dt: int) -> Vec3Fix {
    match drag {
        Some(d) => Vec3Fix {
            x: spec_fmul(v.x as int, SCALE - spec_fmul(d.x as int, dt)) as i64,
            y: spec_fmul(v.y as int, SCALE - spec_fmul(d.y as int, dt)) as i64,
            z: spec_fmul(v.z as int, SCALE - spec_fmul(d.z as int, dt)) as i64,
        },
        None => v,
    }
}

/// The velocity after the acceleration stage: `v + a * dt` componentwise.
pub open spec fn spec_after_accel(v: Vec3Fix, accel: Option<Vec3Fix>, dt: int) -> Vec3Fix {
    match accel {
        Some(a) => Vec3Fix {
            x: (v.x + spec_fmul(a.x as int, dt)) as i64,
            y: (v.y + spec_fmul(a.y as int, dt)) as i64,
            z: (v.z + spec_fmul(a.z as int, dt)) as i64,
        },
        None => v,
    }
}

/// The velocity after the speed-limit stage: unchanged when its length is
/// within the limit, else rescaled to the limit (each component multiplied
/// by `limit / |v|`, truncated toward zero).
pub open spec fn spec_after_limit(v: Vec3Fix, limit: Option<i64>) -> Vec3Fix {
    match limit {
        Some(l) => {
            let n2 = v.spec_norm2();
            if n2 > l * l {
                let n = spec_isqrt(n2);
                Vec3Fix {
                    x: trunc_div(v.x * l, n) as i64,
                    y: trunc_div(v.y * l, n) as i64,
                    z: trunc_div(v.z * l, n) as i64,
                }
            } else {
                v
            }
        },
        None => v,
    }
}

/// The velocity a body carries into collision resolution: drag, then
/// acceleration, then the speed limit.
pub open spec fn spec_integrated_velocity(b: BodyState, dt: int) -> Vec3Fix {
    spec_after_limit(
        spec_after_accel(spec_after_drag(b.velocity, b.drag, dt), b.acceleration, dt),
        b.speed_limit,
    )
}

/// Applies drag, acceleration and the speed limit to the body's velocity;
/// exactly [`spec_integrated_velocity`].  Nothing else changes.
pub fn integrate_velocity(body: &mut BodyState, dt: i64)
    requires
        old(body).wf(),
        spec_drag_bounded(old(body).drag, dt as int),
        0 < dt <= SCALE,
    ensures
        final(body).velocity == spec_integrated_velocity(*old(body), dt as int),
        *final(body) == (BodyState { velocity: final(body).velocity, ..*old(body) }),
        final(body).velocity.within(2 * VEL_LIMIT as int),
{
    let v = body.velocity;
    let v1 = match &body.drag {
        Some(d) => {
            proof {
                crate::num::lemma_fmul_contracts(d.x as int, dt as int);
                crate::num::lemma_fmul_contracts(d.y as int, dt as int);
                crate::num::lemma_fmul_contracts(d.z as int, dt as int);
                assert(d.x * dt >= 0 && d.y * dt >= 0 && d.z * dt >= 0)
                    by (nonlinear_arith)
                    requires
                        d.x >= 0 && d.y >= 0 && d.z >= 0 && dt > 0,
                ;
                crate::num::lemma_trunc_div_bound(d.x * dt, SCALE as int);
                crate::num::lemma_trunc_div_bound(d.y * dt, SCALE as int);
                crate::num::lemma_trunc_div_bound(d.z * dt, SCALE as int);
            }
            let fx = SCALE - fmul(d.x, dt);
            let fy = SCALE - fmul(d.y, dt);
            let fz = SCALE - fmul(d.z, dt);
            proof {
                crate::num::lemma_fmul_contracts(v.x as int, fx as int);
                crate::num::lemma_fmul_contracts(v.y as int, fy as int);
                crate::num::lemma_fmul_contracts(v.z as int, fz as int);
            }
            Vec3Fix { x: fmul(v.x, fx), y: fmul(v.y, fy), z: fmul(v.z, fz) }
        },
        None => v,
    };
    let v2 = match &body.acceleration {
        Some(a) => {
            proof {
                crate::num::lemma_fmul_contracts(a.x as int, dt as int);
                crate::num::lemma_fmul_contracts(a.y as int, dt as int);
                crate::num::lemma_fmul_contracts(a.z as int, dt as int);
            }
            Vec3Fix { x: v1.x + fmul(a.x, dt), y: v1.y + fmul(a.y, dt), z: v1.z + fmul(
                a.z,
                dt,
            ) }
        },
        None => v1,
    };
    let v3 = match &body.speed_limit {
        Some(l) => {
            proof {
                assert(0 <= body.speed_limit->Some_0 <= VEL_LIMIT);
                assert(v2.in_range());
            }
            let n2 = v2.norm2();
            let l128 = *l as i128;
            proof {
                assert(0 <= l128 * l128 <= 1_000_000_000_000_000_000_000_000i128)
                    by (nonlinear_arith)
                    requires
                        0 <= l128 <= 1_000_000_000_000i128,
                ;
                crate::vec3::lemma_square_nonneg(v2.x as int);
                crate::vec3::lemma_square_nonneg(v2.y as int);
                crate::vec3::lemma_square_nonneg(v2.z as int);
            }
            if n2 > l128 * l128 {
                let n = isqrt_u128(n2 as u128) as i128;
                proof {
                    assert(n as int * (n as int) <= n2 as int);
                    lemma_isqrt_unique(n2 as int, n as int);
                    lemma_clamp_bounds(v2.x as int, *l as int, n as int, n2 as int);
                    lemma_clamp_bounds(v2.y as int, *l as int, n as int, n2 as int);
                    lemma_clamp_bounds(v2.z as int, *l as int, n as int, n2 as int);
                    assert((n as int) * (l128 as int) < 0x1_0000_0000_0000_0000_0000_0000_0000)
                        by (nonlinear_arith)
                        requires
                            0 <= (n as int) && (n as int) < 0x1_0000_0000_0000_0000,
                            0 <= (l128 as int) <= 1_000_000_000_000,
                    ;
                }
                let cx = crate::num::div_trunc_i128((v2.x as i128) * l128, n);
                let cy = crate::num::div_trunc_i128((v2.y as i128) * l128, n);
                let cz = crate::num::div_trunc_i128((v2.z as i128) * l128, n);
                Vec3Fix { x: cx as i64, y: cy as i64, z: cz as i64 }
            } else {
                v2
            }
        },
        None => v2,
    };
    body.velocity = v3;
}

/// Bounds for the speed-limit rescale: the scaled component has magnitude
/// at most the limit.
proof fn lemma_clamp_bounds(vc: int, l: int, n: int, n2: int)
    requires
        0 <= l,
        0 <= n,
        n * n <= n2,
        n2 < (n + 1) * (n + 1),
        vc * vc <= n2,
        n2 > l * l,
    ensures
        n >= 1,
        -n <= vc <= n,
        abs_int(trunc_div(vc * l, n)) <= l,
        abs_int(vc * l) <= n * l,
{
    assert(n >= 1) by (nonlinear_arith)
        requires
            0 <= n,
            n2 < (n + 1) * (n + 1),
            n2 > l * l,
            l >= 0,
    ;
    assert(-n <= vc <= n) by (nonlinear_arith)
        requires
            vc * vc <= n2,
            n2 < (n + 1) * (n + 1),
            n >= 0,
    ;
    crate::num::lemma_trunc_div_bound(vc * l, n);
    assert(-(n * l) <= vc * l <= n * l) by (nonlinear_arith)
        requires
            -n <= vc <= n,
            l >= 0,
    ;
    vstd::arithmetic::div_mod::lemma_div_by_multiple(l, n);
    if vc * l >= 0 {
        vstd::arithmetic::div_mod::lemma_div_is_ordered(vc * l, l * n, n);
        assert(l * n == n * l);
        assert((l * n) / n == l);
    } else {
        vstd::arithmetic::div_mod::lemma_div_is_ordered(-(vc * l), l * n, n);
        assert((l * n) / n == l);
    }
}

/// The world-space box used for terrain collision: the override hitbox if
/// one is configured, else the body's own, translated to the position.
pub open spec fn spec_block_box(b: BodyState) -> Aabb {
    match b.block_collision {
        Some(c) => match c.block_collider_hitbox {
            Some(h) => h.spec_translate(b.position),
            None => b.hitbox.spec_translate(b.position),
        },
        None => b.hitbox.spec_translate(b.position),
    }
}

/// The world-space box used for body-vs-body collision.
pub open spec fn spec_entity_box(b: BodyState) -> Aabb {
    match b.entity_collision {
        Some(c) => match c.entity_collider_hitbox {
            Some(h) => h.spec_translate(b.position),
            None => b.hitbox.spec_translate(b.position),
        },
        None => b.hitbox.spec_translate(b.position),
    }
}

/// The world origin of a cell.
pub open spec fn spec_cell_origin(c: CellPos) -> Vec3Fix {
    Vec3Fix { x: (c.x * SCALE) as i64, y: (c.y * SCALE) as i64, z: (c.z * SCALE) as i64 }
}

/// The candidate cells a body with world box `hb` at `pos`, displaced by
/// `d` this tick, can reach: the lattice of the three per-axis ranges, each
/// anchored at the body's current cell, extended by the half-extent in
/// whole cells, and stretched toward the displaced cell.
pub open spec fn spec_candidate_cells(hb: Aabb, pos: Vec3Fix, d: Vec3Fix) -> Seq<CellPos> {
    let sx = (hb.max.x - hb.min.x) / ((2 * SCALE) as int);
    let sy = (hb.max.y - hb.min.y) / ((2 * SCALE) as int);
    let sz = (hb.max.z - hb.min.z) / ((2 * SCALE) as int);
    let rx = spec_axis_range(trunc_div(pos.x as int, SCALE as int), d.x > 0, sx, trunc_div(
        pos.x + d.x,
        SCALE as int,
    ));
    let ry = spec_axis_range(trunc_div(pos.y as int, SCALE as int), d.y > 0, sy, trunc_div(
        pos.y + d.y,
        SCALE as int,
    ));
    let rz = spec_axis_range(trunc_div(pos.z as int, SCALE as int), d.z > 0, sz, trunc_div(
        pos.z + d.z,
        SCALE as int,
    ));
    cell_lattice(rx.0, rx.1, ry.0, ry.1, rz.0, rz.1)
}

/// Enumerates the candidate cells; exactly [`spec_candidate_cells`].
pub fn candidate_cells(hb: &Aabb, pos: &Vec3Fix, d: &Vec3Fix) -> (r: Vec<CellPos>)
    requires
        hb.wf(),
        hb.min.within(POS_LIMIT + HITBOX_LIMIT as int),
        hb.max.within(POS_LIMIT + HITBOX_LIMIT as int),
        pos.within(POS_LIMIT + 8 * VEL_LIMIT as int),
        d.within(2 * VEL_LIMIT as int),
    ensures
        r@ == spec_candidate_cells(*hb, *pos, *d),
{
    let sx = (hb.max.x - hb.min.x) / (2 * SCALE);
    let sy = (hb.max.y - hb.min.y) / (2 * SCALE);
    let sz = (hb.max.z - hb.min.z) / (2 * SCALE);
    proof {
        vstd::arithmetic::div_mod::lemma_div_pos_is_pos(hb.max.x - hb.min.x, 2 * SCALE);
        vstd::arithmetic::div_mod::lemma_div_pos_is_pos(hb.max.y - hb.min.y, 2 * SCALE);
        vstd::arithmetic::div_mod::lemma_div_pos_is_pos(hb.max.z - hb.min.z, 2 * SCALE);
        vstd::arithmetic::div_mod::lemma_div_is_ordered(hb.max.x - hb.min.x, 4 * (
        POS_LIMIT as int), 2 * SCALE);
        vstd::arithmetic::div_mod::lemma_div_is_ordered(hb.max.y - hb.min.y, 4 * (
        POS_LIMIT as int), 2 * SCALE);
        vstd::arithmetic::div_mod::lemma_div_is_ordered(hb.max.z - hb.min.z, 4 * (
        POS_LIMIT as int), 2 * SCALE);
    }
    let startx = cell_coord(pos.x);
    let starty = cell_coord(pos.y);
    let startz = cell_coord(pos.z);
    let centerx = cell_coord(pos.x + d.x);
    let centery = cell_coord(pos.y + d.y);
    let centerz = cell_coord(pos.z + d.z);
    let rx = axis_range(startx, d.x > 0, sx, centerx);
    let ry = axis_range(starty, d.y > 0, sy, centery);
    let rz = axis_range(startz, d.z > 0, sz, centerz);
    enumerate_lattice(rx.0, rx.1, ry.0, ry.1, rz.0, rz.1)
}

/// The collisions one cell's sub-shapes produce against the moving box:
/// each shape is translated to world space and swept against; only results
/// with a controlling axis count.
pub open spec fn spec_shape_collisions(
    hb: Aabb,
    d: Vec3Fix,
    c: CellPos,
    shapes: Seq<Aabb>,
) -> Seq<(CellPos, CollisionResult)>
    decreases shapes.len(),
{
    if shapes.len() == 0 {
        Seq::empty()
    } else {
        let rest = spec_shape_collisions(hb, d, c, shapes.drop_last());
        match spec_swept(hb, d, shapes.last().spec_translate(spec_cell_origin(c))) {
            Some(col) => if col.face_direction.spec_any() {
                rest.push((c, col))
            } else {
                rest
            },
            None => rest,
        }
    }
}

/// The collisions of all candidate cells, in enumeration order.
pub open spec fn spec_cells_collisions(
    hb: Aabb,
    d: Vec3Fix,
    t: Terrain,
    cells: Seq<CellPos>,
) -> Seq<(CellPos, CollisionResult)>
    decreases cells.len(),
{
    if cells.len() == 0 {
        Seq::empty()
    } else {
        spec_cells_collisions(hb, d, t, cells.drop_last()) + spec_shape_collisions(
            hb,
            d,
            cells.last(),
            t.spec_solid_shapes(cells.last()),
        )
    }
}

/// Every terrain collision this tick could produce: broadphase candidates,
/// then the swept narrowphase against each solid cell's sub-shapes.
pub open spec fn spec_collect(hb: Aabb, d: Vec3Fix, t: Terrain, pos: Vec3Fix) -> Seq<(
    CellPos,
    CollisionResult,
)> {
    spec_cells_collisions(hb, d, t, spec_candidate_cells(hb, pos, d))
}

/// Collects the terrain collisions; exactly [`spec_collect`].  Every
/// reported entry time is a well-formed fraction within the tick.
fn collect_collisions(hb: &Aabb, d: &Vec3Fix, pos: &Vec3Fix, terrain: &Terrain) -> (r: Vec<
    (CellPos, CollisionResult),
>)
    requires
        terrain.wf(),
        hb.wf(),
        hb.min.within(POS_LIMIT + HITBOX_LIMIT as int),
        hb.max.within(POS_LIMIT + HITBOX_LIMIT as int),
        pos.within(POS_LIMIT + 8 * VEL_LIMIT as int),
        d.within(2 * VEL_LIMIT as int),
    ensures
        r@ == spec_collect(*hb, *d, *terrain, *pos),
        forall|i: int|
            0 <= i < r@.len() ==> (#[trigger] r@[i]).1.entry_time.wf() && 0 <= r@[
            i].1.entry_time.num <= r@[i].1.entry_time.den,
{
    let cells = candidate_cells(hb, pos, d);
    let mut out: Vec<(CellPos, CollisionResult)> = Vec::new();
    proof {
        assert(cells@.subrange(0, 0) =~= Seq::<CellPos>::empty());
    }
    let mut i: usize = 0;
    while i < cells.len()
        invariant
            0 <= i <= cells@.len(),
            terrain.wf(),
            hb.wf(),
            hb.min.within(POS_LIMIT + HITBOX_LIMIT as int),
            hb.max.within(POS_LIMIT + HITBOX_LIMIT as int),
            d.within(2 * VEL_LIMIT as int),
            out@ == spec_cells_collisions(*hb, *d, *terrain, cells@.subrange(0, i as int)),
            forall|k: int|
                0 <= k < out@.len() ==> (#[trigger] out@[k]).1.entry_time.wf() && 0 <= out@[
                k].1.entry_time.num <= out@[k].1.entry_time.den,
        decreases cells@.len() - i,
    {
        let c = cells[i];
        let ghost pre = out@;
        match terrain.block_at(c) {
            Some(b) => {
                if b.solid {
                    proof {
                        crate::broadphase::lemma_block_at_wf(*terrain, c);
                        assert(terrain.spec_solid_shapes(c) == b.shapes@);
                        assert(out@ =~= pre + spec_shape_collisions(*hb, *d, c,
                            b.shapes@.subrange(0, 0)));
                    }
                    let mut j: usize = 0;
                    while j < b.shapes.len()
                        invariant
                            0 <= j <= b.shapes@.len(),
                            terrain.wf(),
                            hb.wf(),
                            hb.min.within(POS_LIMIT + HITBOX_LIMIT as int),
                            hb.max.within(POS_LIMIT + HITBOX_LIMIT as int),
                            d.within(2 * VEL_LIMIT as int),
                            b.wf(),
                            c.in_range(),
                            out@ == pre + spec_shape_collisions(*hb, *d, c,
                                b.shapes@.subrange(0, j as int)),
                            forall|k: int|
                                0 <= k < out@.len() ==> (#[trigger] out@[
                                k]).1.entry_time.wf() && 0 <= out@[k].1.entry_time.num
                                    <= out@[k].1.entry_time.den,
                        decreases b.shapes@.len() - j,
                    {
                        proof {
                            assert(b.shapes@.subrange(0, j + 1 as int).drop_last()
                                =~= b.shapes@.subrange(0, j as int));
                            assert(b.shapes@.subrange(0, j + 1 as int).last() == b.shapes@[
                                j as int]);
                        }
                        let origin = Vec3Fix {
                            x: c.x * SCALE,
                            y: c.y * SCALE,
                            z: c.z * SCALE,
                        };
                        let world = b.shapes[j].translate(origin);
                        match swept_aabb_collide(hb, d, &world) {
                            Some(col) => {
                                if col.face_direction.any() {
                                    out.push((c, col));
                                }
                            },
                            None => {},
                        }
                        j += 1;
                    }
                    proof {
                        assert(b.shapes@.subrange(0, b.shapes@.len() as int) =~= b.shapes@);
                    }
                } else {
                    proof {
                        assert(terrain.spec_solid_shapes(c) =~= Seq::<Aabb>::empty());
                        assert(out@ =~= pre + spec_shape_collisions(*hb, *d, c,
                            terrain.spec_solid_shapes(c)));
                    }
                }
            },
            None => {
                proof {
                    assert(terrain.spec_solid_shapes(c) =~= Seq::<Aabb>::empty());
                    assert(out@ =~= pre + spec_shape_collisions(*hb, *d, c,
                        terrain.spec_solid_shapes(c)));
                }
            },
        }
        proof {
            assert(cells@.subrange(0, i + 1 as int).drop_last() =~= cells@.subrange(
                0,
                i as int,
            ));
            assert(cells@.subrange(0, i + 1 as int).last() == cells@[i as int]);
            assert(out@ =~= spec_cells_collisions(*hb, *d, *terrain, cells@.subrange(
                0,
                i + 1 as int,
            )));
        }
        i += 1;
    }
    proof {
        assert(cells@.subrange(0, cells@.len() as int) =~= cells@);
    }
    out
}

/// The collision resolved first: the one of least entry time; among equal
/// entry times the last in enumeration order wins.
pub open spec fn spec_min_collision(s: Seq<(CellPos, CollisionResult)>) -> (
    CellPos,
    CollisionResult,
)
    recommends
        s.len() >= 1,
    decreases s.len(),
{
    if s.len() <= 1 {
        s[0]
    } else {
        let rest = spec_min_collision(s.drop_last());
        if frac_le(s.last().1.entry_time, rest.1.entry_time) {
            s.last()
        } else {
            rest
        }
    }
}

/// `a <= b` on entry-time fractions.
pub open spec fn frac_le(a: Frac, b: Frac) -> bool {
    a.num * b.den <= b.num * a.den
}

/// Picks the collision with the least entry time; exactly
/// [`spec_min_collision`].
fn pick_min_collision(colls: &Vec<(CellPos, CollisionResult)>) -> (r: (
    CellPos,
    CollisionResult,
))
    requires
        colls@.len() >= 1,
        forall|i: int|
            0 <= i < colls@.len() ==> (#[trigger] colls@[i]).1.entry_time.wf() && 0 <= colls@[
            i].1.entry_time.num <= colls@[i].1.entry_time.den,
    ensures
        r == spec_min_collision(colls@),
        exists|i: int| 0 <= i < colls@.len() && colls@[i] == r,
{
    let mut best = colls[0];
    proof {
        assert(colls@.subrange(0, 1).len() == 1);
        assert(colls@.subrange(0, 1)[0] == colls@[0]);
        assert(best == spec_min_collision(colls@.subrange(0, 1)));
        assert(colls@[0] == best);
    }
    let mut i: usize = 1;
    while i < colls.len()
        invariant
            1 <= i <= colls@.len(),
            forall|k: int|
                0 <= k < colls@.len() ==> (#[trigger] colls@[k]).1.entry_time.wf() && 0
                    <= colls@[k].1.entry_time.num <= colls@[k].1.entry_time.den,
            best == spec_min_collision(colls@.subrange(0, i as int)),
            exists|k: int| 0 <= k < colls@.len() && colls@[k] == best,
        decreases colls@.len() - i,
    {
        proof {
            assert(colls@.subrange(0, i + 1 as int).drop_last() =~= colls@.subrange(
                0,
                i as int,
            ));
            assert(colls@.subrange(0, i + 1 as int).last() == colls@[i as int]);
            crate::swept::lemma_cross_mul_in_range(colls@[i as int].1.entry_time,
                best.1.entry_time);
        }
        let cand = colls[i];
        if cand.1.entry_time.num * best.1.entry_time.den <= best.1.entry_time.num
            * cand.1.entry_time.den {
            best = cand;
            proof {
                assert(colls@[i as int] == best);
            }
        }
        i += 1;
    }
    proof {
        assert(colls@.subrange(0, colls@.len() as int) =~= colls@);
    }
    best
}

/// The displacement covered this tick: velocity scaled by `dt`.
pub open spec fn spec_scaled(v: Vec3Fix, dt: int) -> Vec3Fix {
    Vec3Fix {
        x: spec_fmul(v.x as int, dt) as i64,
        y: spec_fmul(v.y as int, dt) as i64,
        z: spec_fmul(v.z as int, dt) as i64,
    }
}

/// One terrain resolution pass: collect this tick's collisions, and if any
/// remain, resolve the earliest.  On the controlling axes the velocity is
/// zeroed and the position advanced to just short of contact (the entry
/// time pulled back by the collision epsilon); the matching face bits are
/// set; a body configured to stop on one of those faces loses its whole
/// velocity.  Returns the new body, the event to emit, and whether the
/// pass found nothing left to resolve.
pub open spec fn spec_resolve_pass(b: BodyState, hb: Aabb, t: Terrain, dt: int) -> (
    BodyState,
    Option<EntityBlockCollisionEvent>,
    bool,
) {
    let d = spec_scaled(b.velocity, dt);
    let colls = spec_collect(hb, d, t, b.position);
    if colls.len() == 0 {
        (b, None, true)
    } else {
        let pick = spec_min_collision(colls);
        let col = pick.1;
        let tf = Frac {
            num: (col.entry_time.num * EPSILON_DEN - col.entry_time.den) as i128,
            den: (col.entry_time.den * EPSILON_DEN) as i128,
        };
        let mask = (match col.face_direction.x {
            Some(px) => if px {
                Direction::East.spec_bit()
            } else {
                Direction::West.spec_bit()
            },
            None => 0u8,
        } | match col.face_direction.y {
            Some(py) => if py {
                Direction::Up.spec_bit()
            } else {
                Direction::Down.spec_bit()
            },
            None => 0u8,
        } | match col.face_direction.z {
            Some(pz) => if pz {
                Direction::South.spec_bit()
            } else {
                Direction::North.spec_bit()
            },
            None => 0u8,
        });
        let vx = if col.face_direction.x is Some {
            0i64
        } else {
            b.velocity.x
        };
        let vy = if col.face_direction.y is Some {
            0i64
        } else {
            b.velocity.y
        };
        let vz = if col.face_direction.z is Some {
            0i64
        } else {
            b.velocity.z
        };
        let px = if col.face_direction.x is Some {
            (b.position.x + trunc_div(d.x * tf.num, tf.den as int)) as i64
        } else {
            b.position.x
        };
        let py = if col.face_direction.y is Some {
            (b.position.y + trunc_div(d.y * tf.num, tf.den as int)) as i64
        } else {
            b.position.y
        };
        let pz = if col.face_direction.z is Some {
            (b.position.z + trunc_div(d.z * tf.num, tf.den as int)) as i64
        } else {
            b.position.z
        };
        let stopped = match b.stop_on_block_collision {
            Some(s) => s.0 & mask != 0,
            None => false,
        };
        let v = if stopped {
            Vec3Fix { x: 0i64, y: 0i64, z: 0i64 }
        } else {
            Vec3Fix { x: vx, y: vy, z: vz }
        };
        let ev = EntityBlockCollisionEvent {
            entity: b.id,
            block_pos: pick.0,
            block_face_bitmap: mask,
        };
        (
            BodyState { position: Vec3Fix { x: px, y: py, z: pz }, velocity: v, ..b },
            Some(ev),
            false,
        )
    }
}

/// One resolution pass; exactly [`spec_resolve_pass`].
fn resolve_pass(body: &mut BodyState, hb: &Aabb, terrain: &Terrain, dt: i64) -> (r: (
    Option<EntityBlockCollisionEvent>,
    bool,
))
    requires
        terrain.wf(),
        0 < dt <= SCALE,
        hb.wf(),
        hb.min.within(POS_LIMIT + HITBOX_LIMIT as int),
        hb.max.within(POS_LIMIT + HITBOX_LIMIT as int),
        old(body).position.within(POS_LIMIT + 4 * VEL_LIMIT as int),
        old(body).velocity.within(2 * VEL_LIMIT as int),
    ensures
        ({
            let s = spec_resolve_pass(*old(body), *hb, *terrain, dt as int);
            *final(body) == s.0 && r.0 == s.1 && r.1 == s.2
        }),
        *final(body) == (BodyState {
            position: final(body).position,
            velocity: final(body).velocity,
            ..*old(body)
        }),
        abs_int(final(body).velocity.x as int) <= abs_int(old(body).velocity.x as int),
        abs_int(final(body).velocity.y as int) <= abs_int(old(body).velocity.y as int),
        abs_int(final(body).velocity.z as int) <= abs_int(old(body).velocity.z as int),
        abs_int(final(body).position.x - old(body).position.x) <= abs_int(
            old(body).velocity.x as int,
        ),
        abs_int(final(body).position.y - old(body).position.y) <= abs_int(
            old(body).velocity.y as int,
        ),
        abs_int(final(body).position.z - old(body).position.z) <= abs_int(
            old(body).velocity.z as int,
        ),
{
    let d = body.velocity.scale(dt);
    let colls = collect_collisions(hb, &d, &body.position, terrain);
    if colls.len() == 0 {
        return (None, true);
    }
    let pick = pick_min_collision(&colls);
    proof {
        let k = choose|k: int| 0 <= k < colls@.len() && colls@[k] == pick;
        assert(pick.1.entry_time.wf() && 0 <= pick.1.entry_time.num
            <= pick.1.entry_time.den);
    }
    let tf = entry_minus_epsilon(pick.1.entry_time);
    proof {
        assert(tf.den == pick.1.entry_time.den * EPSILON_DEN);
        assert(-tf.den <= tf.num <= tf.den);
        assert(tf.den <= crate::swept::FRAC_LIMIT * EPSILON_DEN);
    }
    let mut v = body.velocity;
    let mut p = body.position;
    let mut mx: u8 = 0;
    let mut my: u8 = 0;
    let mut mz: u8 = 0;
    match pick.1.face_direction.x {
        Some(px) => {
            v.x = 0;
            p.x = p.x + advance_along(d.x, tf);
            mx = if px {
                32
            } else {
                16
            };
        },
        None => {},
    }
    match pick.1.face_direction.y {
        Some(py) => {
            v.y = 0;
            p.y = p.y + advance_along(d.y, tf);
            my = if py {
                2
            } else {
                1
            };
        },
        None => {},
    }
    match pick.1.face_direction.z {
        Some(pz) => {
            v.z = 0;
            p.z = p.z + advance_along(d.z, tf);
            mz = if pz {
                8
            } else {
                4
            };
        },
        None => {},
    }
    let mask: u8 = mx | my | mz;
    let ev = EntityBlockCollisionEvent {
        entity: body.id,
        block_pos: pick.0,
        block_face_bitmap: mask,
    };
    let mut stopped = false;
    match &body.stop_on_block_collision {
        Some(s) => {
            if s.should_stop_bitmap(mask) {
                stopped = true;
            }
        },
        None => {},
    }
    if stopped {
        v = Vec3Fix { x: 0, y: 0, z: 0 };
    }
    body.velocity = v;
    body.position = p;
    (Some(ev), false)
}

/// Up to `passes` resolution passes, stopping as soon as one finds nothing
/// to resolve, collecting the emitted events in order.
pub open spec fn spec_resolve_loop(
    b: BodyState,
    hb: Aabb,
    t: Terrain,
    dt: int,
    passes: nat,
) -> (BodyState, Seq<EntityBlockCollisionEvent>)
    decreases passes,
{
    if passes == 0 {
        (b, Seq::empty())
    } else {
        let s = spec_resolve_pass(b, hb, t, dt);
        if s.2 {
            (b, Seq::empty())
        } else {
            let rest = spec_resolve_loop(s.0, hb, t, dt, (passes - 1) as nat);
            (rest.0, seq![s.1->Some_0] + rest.1)
        }
    }
}

/// Runs up to three resolution passes; exactly [`spec_resolve_loop`] with
/// three passes.
fn resolve_terrain(body: &mut BodyState, hb: &Aabb, terrain: &Terrain, dt: i64) -> (evs: Vec<
    EntityBlockCollisionEvent,
>)
    requires
        terrain.wf(),
        0 < dt <= SCALE,
        hb.wf(),
        hb.min.within(POS_LIMIT + HITBOX_LIMIT as int),
        hb.max.within(POS_LIMIT + HITBOX_LIMIT as int),
        old(body).position.within(POS_LIMIT as int),
        old(body).velocity.within(2 * VEL_LIMIT as int),
    ensures
        ({
            let s = spec_resolve_loop(*old(body), *hb, *terrain, dt as int, 3);
            *final(body) == s.0 && evs@ == s.1
        }),
        *final(body) == (BodyState {
            position: final(body).position,
            velocity: final(body).velocity,
            ..*old(body)
        }),
        final(body).position.within(POS_LIMIT + 6 * VEL_LIMIT as int),
        abs_int(final(body).velocity.x as int) <= abs_int(old(body).velocity.x as int),
        abs_int(final(body).velocity.y as int) <= abs_int(old(body).velocity.y as int),
        abs_int(final(body).velocity.z as int) <= abs_int(old(body).velocity.z as int),
{
    let mut evs: Vec<EntityBlockCollisionEvent> = Vec::new();
    let mut done = false;
    let mut k: usize = 0;
    while k < 3 && !done
        invariant
            terrain.wf(),
            0 < dt <= SCALE,
            hb.wf(),
            hb.min.within(POS_LIMIT + HITBOX_LIMIT as int),
            hb.max.within(POS_LIMIT + HITBOX_LIMIT as int),
            0 <= k <= 3,
            body.position.x - old(body).position.x <= 2 * (k as int) * (VEL_LIMIT as int),
            old(body).position.x - body.position.x <= 2 * (k as int) * (VEL_LIMIT as int),
            body.position.y - old(body).position.y <= 2 * (k as int) * (VEL_LIMIT as int),
            old(body).position.y - body.position.y <= 2 * (k as int) * (VEL_LIMIT as int),
            body.position.z - old(body).position.z <= 2 * (k as int) * (VEL_LIMIT as int),
            old(body).position.z - body.position.z <= 2 * (k as int) * (VEL_LIMIT as int),
            old(body).position.within(POS_LIMIT as int),
            old(body).velocity.within(2 * VEL_LIMIT as int),
            abs_int(body.velocity.x as int) <= abs_int(old(body).velocity.x as int),
            abs_int(body.velocity.y as int) <= abs_int(old(body).velocity.y as int),
            abs_int(body.velocity.z as int) <= abs_int(old(body).velocity.z as int),
            *body == (BodyState {
                position: body.position,
                velocity: body.velocity,
                ..*old(body)
            }),
            done ==> ({
                let s = spec_resolve_loop(*old(body), *hb, *terrain, dt as int, 3);
                s.0 == *body && s.1 == evs@
            }),
            !done ==> ({
                let s = spec_resolve_loop(*old(body), *hb, *terrain, dt as int, 3);
                let rest = spec_resolve_loop(*body, *hb, *terrain, dt as int, (3 - k) as nat);
                s.0 == rest.0 && s.1 == evs@ + rest.1
            }),
        decreases 3 - k,
    {
        let ghost pre = *body;
        let pr = resolve_pass(body, hb, terrain, dt);
        proof {
            let sp = spec_resolve_pass(pre, *hb, *terrain, dt as int);
            let n = (3 - k) as nat;
            assert(spec_resolve_loop(pre, *hb, *terrain, dt as int, n).0
                == if sp.2 { pre } else {
                    spec_resolve_loop(sp.0, *hb, *terrain, dt as int, (n - 1) as nat).0
                });
        }
        if pr.1 {
            done = true;
            proof {
                assert(*body == pre);
                assert(evs@ + Seq::<EntityBlockCollisionEvent>::empty() =~= evs@);
            }
        } else {
            let ghost evs_pre = evs@;
            let ev = pr.0.unwrap();
            evs.push(ev);
            proof {
                let sp = spec_resolve_pass(pre, *hb, *terrain, dt as int);
                let n = (3 - k) as nat;
                let rest = spec_resolve_loop(*body, *hb, *terrain, dt as int, (n - 1) as nat);
                assert(spec_resolve_loop(pre, *hb, *terrain, dt as int, n).1 == seq![
                    sp.1->Some_0] + rest.1);
                assert(evs@ =~= evs_pre + seq![ev]);
                assert(evs_pre + (seq![ev] + rest.1) =~= (evs_pre + seq![ev]) + rest.1);
            }
        }
        k += 1;
    }
    proof {
        if !done {
            let s = spec_resolve_loop(*old(body), *hb, *terrain, dt as int, 3);
            let rest = spec_resolve_loop(*body, *hb, *terrain, dt as int, 0);
            assert(rest.0 == *body && rest.1 =~= Seq::<EntityBlockCollisionEvent>::empty());
            assert(evs@ + rest.1 =~= evs@);
        }
    }
    evs
}

/// The body after the end-of-tick advance: position moved by the full
/// remaining displacement `velocity * dt`.
pub open spec fn spec_advanced(b: BodyState, dt: int) -> BodyState {
    BodyState {
        position: Vec3Fix {
            x: (b.position.x + spec_fmul(b.velocity.x as int, dt)) as i64,
            y: (b.position.y + spec_fmul(b.velocity.y as int, dt)) as i64,
            z: (b.position.z + spec_fmul(b.velocity.z as int, dt)) as i64,
        },
        ..b
    }
}

/// The body-vs-body events for detecting body `id`: one per queried entry,
/// in query order, skipping the body itself.
pub open spec fn spec_entity_events(id: u64, q: Seq<crate::bvh::BvhEntry>) -> Seq<
    EntityEntityCollisionEvent,
>
    decreases q.len(),
{
    if q.len() == 0 {
        Seq::empty()
    } else {
        let rest = spec_entity_events(id, q.drop_last());
        if q.last().payload != id {
            rest.push(EntityEntityCollisionEvent { entity1: id, entity2: q.last().payload })
        } else {
            rest
        }
    }
}

/// One whole tick for one body: velocity integration, then (for bodies
/// opted into terrain collision) up to three resolution passes, then the
/// remaining advance, then (for bodies opted into body-vs-body collision)
/// a range query against the body-vs-body index.  Returns the final body
/// and the two event streams.
pub open spec fn spec_step_body(
    b: BodyState,
    t: Terrain,
    reg: Map<u64, crate::bvh::Bvh>,
    dt: int,
) -> (BodyState, Seq<EntityBlockCollisionEvent>, Seq<EntityEntityCollisionEvent>) {
    let b1 = BodyState { velocity: spec_integrated_velocity(b, dt), ..b };
    let blk = if b1.block_collision is Some {
        spec_resolve_loop(b1, spec_block_box(b1), t, dt, 3)
    } else {
        (b1, Seq::empty())
    };
    let b3 = spec_advanced(blk.0, dt);
    let eev = if b3.entity_collision is Some {
        spec_entity_events(
            b3.id,
            reg[crate::registry::ENTITY_ENTITY_BVH_IDX].entries().filter(
                crate::bvh::overlap_pred(spec_entity_box(b3)),
            ),
        )
    } else {
        Seq::empty()
    };
    (b3, blk.1, eev)
}

/// Steps one body through one tick; exactly [`spec_step_body`].
///
/// A body opted into body-vs-body collision needs the body-vs-body index
/// to be registered; an unregistered index is a configuration error,
/// reported before anything is changed.  A body missing optional state is
/// simply skipped by the subsystem needing it.
#[verifier::rlimit(100)]
pub fn step_body(
    body: &mut BodyState,
    terrain: &Terrain,
    registry: &crate::registry::BvhResource,
    dt: i64,
) -> (r: Result<
    (Vec<EntityBlockCollisionEvent>, Vec<EntityEntityCollisionEvent>),
    crate::registry::IndexNotFound,
>)
    requires
        old(body).wf(),
        spec_drag_bounded(old(body).drag, dt as int),
        terrain.wf(),
        registry.wf(),
        0 < dt <= SCALE,
    ensures
        r is Err <==> (old(body).entity_collision is Some && !registry.contains_index(
            crate::registry::ENTITY_ENTITY_BVH_IDX,
        )),
        r is Err ==> *final(body) == *old(body),
        r matches Ok(evs) ==> ({
            let s = spec_step_body(*old(body), *terrain, registry.spec_bvhs(), dt as int);
            *final(body) == s.0 && evs.0@ == s.1 && evs.1@ == s.2
        }),
        final(body).position.within(POS_LIMIT + 8 * VEL_LIMIT as int),
        final(body).velocity.within(2 * VEL_LIMIT as int),
{
    if body.entity_collision.is_some() && !registry.contains(
        crate::registry::ENTITY_ENTITY_BVH_IDX,
    ) {
        return Err(crate::registry::IndexNotFound);
    }
    integrate_velocity(body, dt);
    let ghost b1 = *body;
    let mut block_events: Vec<EntityBlockCollisionEvent> = Vec::new();
    let has_block = body.block_collision.is_some();
    if has_block {
        let local = match &body.block_collision {
            Some(c) => match c.block_collider_hitbox {
                Some(h) => h,
                None => body.hitbox,
            },
            None => body.hitbox,
        };
        let hb = local.translate(body.position);
        proof {
            assert(hb == spec_block_box(b1));
        }
        block_events = resolve_terrain(body, &hb, terrain, dt);
    } else {
        proof {
            assert(block_events@ =~= Seq::<EntityBlockCollisionEvent>::empty());
        }
    }
    let ghost b2 = *body;
    let disp = body.velocity.scale(dt);
    body.position = Vec3Fix {
        x: body.position.x + disp.x,
        y: body.position.y + disp.y,
        z: body.position.z + disp.z,
    };
    let ghost b3 = *body;
    proof {
        assert(b3 == spec_advanced(b2, dt as int));
    }
    let mut entity_events: Vec<EntityEntityCollisionEvent> = Vec::new();
    let has_entity = body.entity_collision.is_some();
    if has_entity {
        let local = match &body.entity_collision {
            Some(c) => match c.entity_collider_hitbox {
                Some(h) => h,
                None => body.hitbox,
            },
            None => body.hitbox,
        };
        let target = local.translate(body.position);
        proof {
            assert(target == spec_entity_box(b3));
        }
        match registry.get_in_range(crate::registry::ENTITY_ENTITY_BVH_IDX, &target) {
            Ok(found) => {
                proof {
                    assert(found@.subrange(0, 0) =~= Seq::<crate::bvh::BvhEntry>::empty());
                }
                let my_id = body.id;
                let mut i: usize = 0;
                while i < found.len()
                    invariant
                        0 <= i <= found@.len(),
                        entity_events@ == spec_entity_events(my_id, found@.subrange(
                            0,
                            i as int,
                        )),
                    decreases found@.len() - i,
                {
                    proof {
                        assert(found@.subrange(0, i + 1 as int).drop_last()
                            =~= found@.subrange(0, i as int));
                        assert(found@.subrange(0, i + 1 as int).last() == found@[i as int]);
                    }
                    if found[i].payload != my_id {
                        entity_events.push(
                            EntityEntityCollisionEvent {
                                entity1: my_id,
                                entity2: found[i].payload,
                            },
                        );
                    }
                    i += 1;
                }
                proof {
                    assert(found@.subrange(0, found@.len() as int) =~= found@);
                }
            },
            Err(e) => {
                proof {
                    assert(false);
                }
                return Err(e);
            },
        }
    } else {
        proof {
            assert(entity_events@ =~= Seq::<EntityEntityCollisionEvent>::empty());
        }
    }
    Ok((block_events, entity_events))
}

/// The body-vs-body index entries: one per body opted into body-vs-body
/// collision, under its world-space collision box.
pub open spec fn spec_entity_entries(bodies: Seq<BodyState>) -> Seq<crate::bvh::BvhEntry>
    decreases bodies.len(),
{
    if bodies.len() == 0 {
        Seq::empty()
    } else {
        let rest = spec_entity_entries(bodies.drop_last());
        if bodies.last().entity_collision is Some {
            rest.push(
                crate::bvh::BvhEntry {
                    payload: bodies.last().id,
                    aabb: spec_entity_box(bodies.last()),
                },
            )
        } else {
            rest
        }
    }
}

/// The body-vs-terrain-obstacle index entries: one per body opted into
/// terrain collision.
pub open spec fn spec_block_entries(bodies: Seq<BodyState>) -> Seq<crate::bvh::BvhEntry>
    decreases bodies.len(),
{
    if bodies.len() == 0 {
        Seq::empty()
    } else {
        let rest = spec_block_entries(bodies.drop_last());
        if bodies.last().block_collision is Some {
            rest.push(
                crate::bvh::BvhEntry {
                    payload: bodies.last().id,
                    aabb: spec_block_box(bodies.last()),
                },
            )
        } else {
            rest
        }
    }
}

/// Rebuilds the two standard indices from the bodies' current boxes: every
/// call discards the previous trees and builds each index from exactly the
/// bodies opted into it, so with no participants an index becomes empty and
/// answers every subsequent query as such.  Bodies without the matching
/// opt-in are excluded from that index's entry set entirely, keeping tree
/// size proportional to participants.  Fails, changing nothing, exactly
/// when a standard index is not registered.
pub fn rebuild_indices(
    registry: &mut crate::registry::BvhResource,
    bodies: &Vec<BodyState>,
) -> (r: Result<(), crate::registry::IndexNotFound>)
    requires
        old(registry).wf(),
        forall|i: int| 0 <= i < bodies@.len() ==> (#[trigger] bodies@[i]).wf(),
    ensures
        final(registry).wf(),
        r is Ok <==> old(registry).contains_index(crate::registry::ENTITY_ENTITY_BVH_IDX)
            && old(registry).contains_index(crate::registry::ENTITY_BLOCK_BVH_IDX),
        r is Err ==> *final(registry) == *old(registry),
        r is Ok ==> ({
            let ee = spec_entity_entries(bodies@);
            let be = spec_block_entries(bodies@);
            &&& forall|id: u64|
                final(registry).contains_index(id) <==> old(registry).contains_index(id)
            &&& final(registry).spec_bvhs()[
                crate::registry::ENTITY_ENTITY_BVH_IDX].entries().to_multiset()
                == ee.to_multiset()
            &&& final(registry).spec_bvhs()[
                crate::registry::ENTITY_ENTITY_BVH_IDX].entries().len() == ee.len()
            &&& final(registry).spec_bvhs()[
                crate::registry::ENTITY_BLOCK_BVH_IDX].entries().to_multiset()
                == be.to_multiset()
            &&& final(registry).spec_bvhs()[
                crate::registry::ENTITY_BLOCK_BVH_IDX].entries().len() == be.len()
            &&& forall|id: u64|
                id != crate::registry::ENTITY_ENTITY_BVH_IDX && id
                    != crate::registry::ENTITY_BLOCK_BVH_IDX && old(
                    registry,
                ).contains_index(id) ==> final(registry).spec_bvhs()[id] == old(
                    registry,
                ).spec_bvhs()[id]
        }),
{
    let mut ee: Vec<crate::bvh::BvhEntry> = Vec::new();
    let mut be: Vec<crate::bvh::BvhEntry> = Vec::new();
    let mut i: usize = 0;
    while i < bodies.len()
        invariant
            0 <= i <= bodies@.len(),
            forall|k: int| 0 <= k < bodies@.len() ==> (#[trigger] bodies@[k]).wf(),
            ee@ == spec_entity_entries(bodies@.subrange(0, i as int)),
            be@ == spec_block_entries(bodies@.subrange(0, i as int)),
            forall|k: int| 0 <= k < ee@.len() ==> (#[trigger] ee@[k]).wf(),
            forall|k: int| 0 <= k < be@.len() ==> (#[trigger] be@[k]).wf(),
        decreases bodies@.len() - i,
    {
        proof {
            assert(bodies@.subrange(0, i + 1 as int).drop_last() =~= bodies@.subrange(
                0,
                i as int,
            ));
            assert(bodies@.subrange(0, i + 1 as int).last() == bodies@[i as int]);
        }
        let body = &bodies[i];
        match &body.entity_collision {
            Some(c) => {
                let local = match c.entity_collider_hitbox {
                    Some(h) => h,
                    None => body.hitbox,
                };
                let aabb = local.translate(body.position);
                proof {
                    assert(aabb == spec_entity_box(bodies@[i as int]));
                }
                ee.push(crate::bvh::BvhEntry { payload: body.id, aabb });
            },
            None => {},
        }
        match &body.block_collision {
            Some(c) => {
                let local = match c.block_collider_hitbox {
                    Some(h) => h,
                    None => body.hitbox,
                };
                let aabb = local.translate(body.position);
                proof {
                    assert(aabb == spec_block_box(bodies@[i as int]));
                }
                be.push(crate::bvh::BvhEntry { payload: body.id, aabb });
            },
            None => {},
        }
        i += 1;
    }
    proof {
        assert(bodies@.subrange(0, bodies@.len() as int) =~= bodies@);
    }
    if !registry.contains(crate::registry::ENTITY_ENTITY_BVH_IDX) || !registry.contains(
        crate::registry::ENTITY_BLOCK_BVH_IDX,
    ) {
        return Err(crate::registry::IndexNotFound);
    }
    match registry.rebuild(crate::registry::ENTITY_ENTITY_BVH_IDX, ee) {
        Ok(_) => {},
        Err(e) => {
            proof {
                assert(false);
            }
            return Err(e);
        },
    }
    match registry.rebuild(crate::registry::ENTITY_BLOCK_BVH_IDX, be) {
        Ok(_) => {},
        Err(e) => {
            proof {
                assert(false);
            }
            return Err(e);
        },
    }
    Ok(())
}

/// One tick for every body in order: each body is stepped independently
/// against the shared terrain and the shared indices, and the events are
/// concatenated in body order.
pub open spec fn spec_step_all(
    bodies: Seq<BodyState>,
    t: Terrain,
    reg: Map<u64, crate::bvh::Bvh>,
    dt: int,
) -> (Seq<BodyState>, Seq<EntityBlockCollisionEvent>, Seq<EntityEntityCollisionEvent>)
    decreases bodies.len(),
{
    if bodies.len() == 0 {
        (Seq::empty(), Seq::empty(), Seq::empty())
    } else {
        let rest = spec_step_all(bodies.drop_last(), t, reg, dt);
        let one = spec_step_body(bodies.last(), t, reg, dt);
        (rest.0.push(one.0), rest.1 + one.1, rest.2 + one.2)
    }
}

/// Steps every body through one tick; exactly [`spec_step_all`].
///
/// The indices must have been built (for instance by [`rebuild_indices`])
/// before the tick, so every body's query observes the same snapshot.  When
/// some body is opted into body-vs-body collision but the body-vs-body
/// index is not registered, the configuration error is reported before any
/// body moves.
pub fn step_all(
    bodies: &mut Vec<BodyState>,
    terrain: &Terrain,
    registry: &crate::registry::BvhResource,
    dt: i64,
) -> (r: Result<
    (Vec<EntityBlockCollisionEvent>, Vec<EntityEntityCollisionEvent>),
    crate::registry::IndexNotFound,
>)
    requires
        forall|i: int| 0 <= i < old(bodies)@.len() ==> (#[trigger] old(bodies)@[i]).wf(),
        forall|i: int|
            0 <= i < old(bodies)@.len() ==> spec_drag_bounded(
                (#[trigger] old(bodies)@[i]).drag,
                dt as int,
            ),
        terrain.wf(),
        registry.wf(),
        0 < dt <= SCALE,
    ensures
        r is Err <==> ((exists|i: int|
            0 <= i < old(bodies)@.len() && (#[trigger] old(bodies)@[i]).entity_collision
                is Some) && !registry.contains_index(
            crate::registry::ENTITY_ENTITY_BVH_IDX,
        )),
        r is Err ==> final(bodies)@ == old(bodies)@,
        r matches Ok(evs) ==> ({
            let s = spec_step_all(old(bodies)@, *terrain, registry.spec_bvhs(), dt as int);
            final(bodies)@ == s.0 && evs.0@ == s.1 && evs.1@ == s.2
        }),
{
    let mut needs_index = false;
    let mut j: usize = 0;
    while j < bodies.len()
        invariant
            0 <= j <= bodies@.len(),
            needs_index == exists|i: int|
                0 <= i < j && (#[trigger] bodies@[i]).entity_collision is Some,
        decreases bodies@.len() - j,
    {
        if bodies[j].entity_collision.is_some() {
            proof {
                assert(bodies@[j as int].entity_collision is Some);
            }
            needs_index = true;
        }
        j += 1;
    }
    if needs_index && !registry.contains(crate::registry::ENTITY_ENTITY_BVH_IDX) {
        return Err(crate::registry::IndexNotFound);
    }
    let mut block_events: Vec<EntityBlockCollisionEvent> = Vec::new();
    let mut entity_events: Vec<EntityEntityCollisionEvent> = Vec::new();
    let mut i: usize = 0;
    proof {
        assert(old(bodies)@.subrange(0, 0) =~= Seq::<BodyState>::empty());
    }
    while i < bodies.len()
        invariant
            0 <= i <= bodies@.len(),
            bodies@.len() == old(bodies)@.len(),
            terrain.wf(),
            registry.wf(),
            0 < dt <= SCALE,
            forall|k: int| 0 <= k < old(bodies)@.len() ==> (#[trigger] old(bodies)@[k]).wf(),
            forall|k: int|
                0 <= k < old(bodies)@.len() ==> spec_drag_bounded(
                    (#[trigger] old(bodies)@[k]).drag,
                    dt as int,
                ),
            forall|k: int| i <= k < bodies@.len() ==> bodies@[k] == old(bodies)@[k],
            needs_index ==> registry.contains_index(crate::registry::ENTITY_ENTITY_BVH_IDX),
            forall|k: int|
                0 <= k < bodies@.len() ==> ((#[trigger] bodies@[k]).entity_collision is Some
                    ==> old(bodies)@[k].entity_collision is Some || k < i),
            needs_index || forall|k: int|
                0 <= k < old(bodies)@.len() ==> !((#[trigger] old(
                    bodies,
                )@[k]).entity_collision is Some),
            ({
                let s = spec_step_all(old(bodies)@.subrange(0, i as int), *terrain,
                    registry.spec_bvhs(), dt as int);
                bodies@.subrange(0, i as int) == s.0 && block_events@ == s.1
                    && entity_events@ == s.2
            }),
        decreases bodies@.len() - i,
    {
        let ghost pre = bodies@;
        let body = &mut bodies[i];
        proof {
            assert(*body == old(bodies)@[i as int]);
            if body.entity_collision is Some {
                assert(needs_index);
            }
        }
        let stepped = step_body(body, terrain, registry, dt);
        proof {
            assert(stepped is Ok);
        }
        match stepped {
            Ok(evs) => {
                let mut bev = evs.0;
                let mut eev = evs.1;
                let ghost bev_seq = bev@;
                let ghost eev_seq = eev@;
                let ghost block_pre = block_events@;
                let ghost entity_pre = entity_events@;
                block_events.append(&mut bev);
                entity_events.append(&mut eev);
                proof {
                    assert(old(bodies)@.subrange(0, i + 1 as int).drop_last()
                        =~= old(bodies)@.subrange(0, i as int));
                    assert(old(bodies)@.subrange(0, i + 1 as int).last() == old(bodies)@[
                        i as int]);
                    let sprev = spec_step_all(old(bodies)@.subrange(0, i as int), *terrain,
                        registry.spec_bvhs(), dt as int);
                    let one = spec_step_body(old(bodies)@[i as int], *terrain,
                        registry.spec_bvhs(), dt as int);
                    assert(bodies@.subrange(0, i + 1 as int) =~= sprev.0.push(one.0));
                    assert(block_events@ =~= block_pre + bev_seq);
                    assert(entity_events@ =~= entity_pre + eev_seq);
                }
            },
            Err(e) => {
                return Err(e);
            },
        }
        i += 1;
    }
    proof {
        assert(old(bodies)@.subrange(0, old(bodies)@.len() as int) =~= old(bodies)@);
        assert(bodies@.subrange(0, bodies@.len() as int) =~= bodies@);
    }
    Ok((block_events, entity_events))
}

} // verus!
