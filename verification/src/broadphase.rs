//! Terrain model and broadphase: which terrain cells a moving box can
//! reach this tick.
//!
//! The broadphase never scans the whole world: for each axis it takes an
//! inclusive range of cells around the body's current cell, extended by the
//! body's half-extent and by this tick's displacement in the direction of
//! motion.  The three ranges form a candidate lattice whose size is bounded
//! by body size plus per-tick displacement.

use vstd::prelude::*;

use crate::aabb::Aabb;
use crate::num::{trunc_div, SCALE};

verus! {

/// Largest cell coordinate magnitude the terrain model accepts.
pub const CELL_LIMIT: i64 = 1_000_000_000;

/// Largest magnitude of a block sub-shape coordinate (local to its cell).
pub const SHAPE_LIMIT: i64 = 16_000;

/// An integer cell (block) coordinate.
#[derive(Clone, Copy, Debug, PartialEq, Eq, Structural)]
pub struct CellPos {
    pub x: i64,
    pub y: i64,
    pub z: i64,
}

impl CellPos {
    pub open spec fn in_range(self) -> bool {
        &&& -CELL_LIMIT <= self.x <= CELL_LIMIT
        &&& -CELL_LIMIT <= self.y <= CELL_LIMIT
        &&& -CELL_LIMIT <= self.z <= CELL_LIMIT
    }
}

/// The state of one terrain cell: whether it is solid, and the collision
/// sub-shapes of the block in cell-local coordinates (a block need not be a
/// single full cube).
pub struct Block {
    pub solid: bool,
    pub shapes: Vec<Aabb>,
}

impl Block {
    pub open spec fn wf(self) -> bool {
        forall|i: int|
            0 <= i < self.shapes@.len() ==> (#[trigger] self.shapes@[i]).wf()
                && self.shapes@[i].min.within(SHAPE_LIMIT as int)
                && self.shapes@[i].max.within(SHAPE_LIMIT as int)
    }
}

/// One materialised terrain cell.
pub struct TerrainCell {
    pub pos: CellPos,
    pub block: Block,
}

/// The terrain the physics step reads: a finite set of materialised cells.
/// A cell that is absent behaves as air (nothing to collide with), exactly
/// like an unloaded or empty cell of the world.  When a position occurs
/// twice, the first entry wins.
pub struct Terrain {
    pub cells: Vec<TerrainCell>,
}

/// First block listed for `c`, scanning from the front.
pub open spec fn block_at_rec(s: Seq<TerrainCell>, c: CellPos) -> Option<Block>
    decreases s.len(),
{
    if s.len() == 0 {
        None
    } else if s[0].pos == c {
        Some(s[0].block)
    } else {
        block_at_rec(s.drop_first(), c)
    }
}

impl Terrain {
    pub open spec fn wf(self) -> bool {
        forall|i: int|
            0 <= i < self.cells@.len() ==> (#[trigger] self.cells@[i]).pos.in_range()
                && self.cells@[i].block.wf()
    }

    /// The block at cell `c`, or `None` where no cell is materialised.
    pub open spec fn spec_block_at(self, c: CellPos) -> Option<Block> {
        block_at_rec(self.cells@, c)
    }

    /// Whether cell `c` is materialised and solid.
    pub open spec fn spec_solid(self, c: CellPos) -> bool {
        match self.spec_block_at(c) {
            Some(b) => b.solid,
            None => false,
        }
    }

    /// The collision sub-shapes the cell contributes: the block's shapes
    /// when the cell is materialised and solid, nothing otherwise.
    pub open spec fn spec_solid_shapes(self, c: CellPos) -> Seq<Aabb> {
        match self.spec_block_at(c) {
            Some(b) => if b.solid {
                b.shapes@
            } else {
                Seq::empty()
            },
            None => Seq::empty(),
        }
    }

    pub fn new() -> (r: Terrain)
        ensures
            r.wf(),
            r.cells@.len() == 0,
    {
        Terrain { cells: Vec::new() }
    }

    /// The block at cell `c`; exactly [`Terrain::spec_block_at`].
    pub fn block_at(&self, c: CellPos) -> (r: Option<&Block>)
        ensures
            match r {
                Some(b) => self.spec_block_at(c) == Some(*b),
                None => self.spec_block_at(c) is None,
            },
    {
        proof {
            assert(self.cells@.skip(0) =~= self.cells@);
        }
        let mut i: usize = 0;
        while i < self.cells.len()
            invariant
                0 <= i <= self.cells@.len(),
                block_at_rec(self.cells@.skip(i as int), c) == self.spec_block_at(c),
            decreases self.cells@.len() - i,
        {
            proof {
                assert(self.cells@.skip(i as int)[0] == self.cells@[i as int]);
                assert(self.cells@.skip(i as int).drop_first() =~= self.cells@.skip(
                    i + 1 as int));
            }
            if self.cells[i].pos.x == c.x && self.cells[i].pos.y == c.y && self.cells[i].pos.z
                == c.z {
                proof {
                    assert(self.cells@[i as int].pos == c);
                }
                return Some(&self.cells[i].block);
            }
            i += 1;
        }
        proof {
            assert(self.cells@.skip(self.cells@.len() as int) =~= Seq::empty());
        }
        None
    }
}

/// A block found at `c` is one of the stored cells' blocks.
pub proof fn lemma_block_at_rec_found(s: Seq<TerrainCell>, c: CellPos)
    requires
        block_at_rec(s, c) is Some,
    ensures
        exists|i: int|
            0 <= i < s.len() && (#[trigger] s[i]).pos == c && s[i].block == block_at_rec(
                s,
                c,
            )->Some_0,
    decreases s.len(),
{
    if s.len() > 0 {
        if s[0].pos == c {
            assert(s[0].pos == c && s[0].block == block_at_rec(s, c)->Some_0);
        } else {
            lemma_block_at_rec_found(s.drop_first(), c);
            let i = choose|i: int|
                0 <= i < s.drop_first().len() && (#[trigger] s.drop_first()[i]).pos == c
                    && s.drop_first()[i].block == block_at_rec(s.drop_first(), c)->Some_0;
            assert(s[i + 1].pos == c && s[i + 1].block == block_at_rec(s, c)->Some_0);
        }
    }
}

/// In a well-formed terrain, a cell with a block is in range and its block
/// is well-formed.
pub proof fn lemma_block_at_wf(t: Terrain, c: CellPos)
    requires
        t.wf(),
        t.spec_block_at(c) is Some,
    ensures
        c.in_range(),
        t.spec_block_at(c)->Some_0.wf(),
{
    lemma_block_at_rec_found(t.cells@, c);
}

/// The cell a fixed-point coordinate falls in, rounding toward zero.
pub fn cell_coord(x: i64) -> (r: i64)
    requires
        -crate::num::COORD_LIMIT <= x <= crate::num::COORD_LIMIT,
    ensures
        r == trunc_div(x as int, SCALE as int),
        -(crate::num::COORD_LIMIT / SCALE) <= r <= crate::num::COORD_LIMIT / SCALE,
{
    let lim = crate::num::COORD_LIMIT;
    proof {
        crate::num::lemma_trunc_div_bound(x as int, SCALE as int);
        if x >= 0 {
            vstd::arithmetic::div_mod::lemma_div_is_ordered(x as int, lim as int,
                SCALE as int);
        } else {
            vstd::arithmetic::div_mod::lemma_div_is_ordered(-x as int, lim as int,
                SCALE as int);
        }
    }
    if x >= 0 {
        x / SCALE
    } else {
        -((-x) / SCALE)
    }
}

/// Floor division by [`SCALE`]: the greatest cell whose origin is at or
/// below `x`.
pub open spec fn spec_floor_cell(x: int) -> int {
    if x >= 0 {
        x / (SCALE as int)
    } else {
        -((-x + SCALE - 1) / (SCALE as int))
    }
}

/// Ceiling division by [`SCALE`].
pub open spec fn spec_ceil_cell(x: int) -> int {
    if x >= 0 {
        (x + SCALE - 1) / (SCALE as int)
    } else {
        -((-x) / (SCALE as int))
    }
}

pub fn floor_cell(x: i64) -> (r: i64)
    requires
        -crate::num::COORD_LIMIT <= x <= crate::num::COORD_LIMIT,
    ensures
        r == spec_floor_cell(x as int),
        -(crate::num::COORD_LIMIT / SCALE + 1) <= r <= crate::num::COORD_LIMIT / SCALE + 1,
{
    let lim = crate::num::COORD_LIMIT;
    if x >= 0 {
        proof {
            vstd::arithmetic::div_mod::lemma_div_pos_is_pos(x as int, SCALE as int);
            vstd::arithmetic::div_mod::lemma_div_is_ordered(x as int, lim as int,
                SCALE as int);
        }
        x / SCALE
    } else {
        proof {
            vstd::arithmetic::div_mod::lemma_div_pos_is_pos(-x + SCALE - 1, SCALE as int);
            vstd::arithmetic::div_mod::lemma_div_is_ordered(-x + SCALE - 1, lim + SCALE - 1,
                SCALE as int);
        }
        -((-x + SCALE - 1) / SCALE)
    }
}

pub fn ceil_cell(x: i64) -> (r: i64)
    requires
        -crate::num::COORD_LIMIT <= x <= crate::num::COORD_LIMIT,
    ensures
        r == spec_ceil_cell(x as int),
        -(crate::num::COORD_LIMIT / SCALE + 1) <= r <= crate::num::COORD_LIMIT / SCALE + 1,
{
    let lim = crate::num::COORD_LIMIT;
    if x >= 0 {
        proof {
            vstd::arithmetic::div_mod::lemma_div_pos_is_pos(x + SCALE - 1, SCALE as int);
            vstd::arithmetic::div_mod::lemma_div_is_ordered(x + SCALE - 1, lim + SCALE - 1,
                SCALE as int);
        }
        (x + SCALE - 1) / SCALE
    } else {
        proof {
            vstd::arithmetic::div_mod::lemma_div_pos_is_pos(-x as int, SCALE as int);
            vstd::arithmetic::div_mod::lemma_div_is_ordered(-x as int, lim as int,
                SCALE as int);
        }
        -((-x) / SCALE)
    }
}

/// The inclusive cell range scanned on one axis: it starts at the body's
/// current cell, extended backward by the half-extent (in whole cells) plus
/// one, and runs to the cell of the displaced position extended forward by
/// the half-extent plus two, oriented by the sign of the motion.
pub open spec fn spec_axis_range(start: int, positive: bool, steps: int, center: int) -> (
    int,
    int,
) {
    if positive {
        (start - (steps + 1), center + steps + 2)
    } else {
        (center - (steps + 2), start + steps + 1)
    }
}

/// Bound on the cell coordinates [`enumerate_lattice`] accepts; large
/// enough for any range the broadphase derives from in-range positions.
pub const LATTICE_LIMIT: i64 = 8_000_000_000_000;

pub fn axis_range(start: i64, positive: bool, steps: i64, center: i64) -> (r: (i64, i64))
    requires
        -2_000_000_000_000 <= start <= 2_000_000_000_000,
        -2_000_000_000_000 <= center <= 2_000_000_000_000,
        0 <= steps <= 2_000_000_000_000,
    ensures
        (r.0 as int, r.1 as int) == spec_axis_range(start as int, positive, steps as int,
            center as int),
        -LATTICE_LIMIT <= r.0 <= LATTICE_LIMIT,
        -LATTICE_LIMIT <= r.1 <= LATTICE_LIMIT,
{
    if positive {
        (start - (steps + 1), center + steps + 2)
    } else {
        (center - (steps + 2), start + steps + 1)
    }
}

/// One run of cells along the z axis, ascending.
pub open spec fn cell_row(x: int, y: int, zlo: int, zhi: int) -> Seq<CellPos>
    decreases zhi + 1 - zlo,
{
    if zhi < zlo {
        Seq::empty()
    } else {
        cell_row(x, y, zlo, zhi - 1).push(
            CellPos { x: x as i64, y: y as i64, z: zhi as i64 },
        )
    }
}

/// One plane of cells for a fixed x, rows ascending in y.
pub open spec fn cell_plane(x: int, ylo: int, yhi: int, zlo: int, zhi: int) -> Seq<CellPos>
    decreases yhi + 1 - ylo,
{
    if yhi < ylo {
        Seq::empty()
    } else {
        cell_plane(x, ylo, yhi - 1, zlo, zhi) + cell_row(x, yhi, zlo, zhi)
    }
}

/// The candidate lattice: the cross product of the three inclusive axis
/// ranges, in ascending x, then y, then z order.
pub open spec fn cell_lattice(
    xlo: int,
    xhi: int,
    ylo: int,
    yhi: int,
    zlo: int,
    zhi: int,
) -> Seq<CellPos>
    decreases xhi + 1 - xlo,
{
    if xhi < xlo {
        Seq::empty()
    } else {
        cell_lattice(xlo, xhi - 1, ylo, yhi, zlo, zhi) + cell_plane(xhi, ylo, yhi, zlo, zhi)
    }
}

/// Enumerates the lattice of cells with `xlo <= x <= xhi`, `ylo <= y <=
/// yhi`, `zlo <= z <= zhi`, ascending, x outermost.
pub fn enumerate_lattice(xlo: i64, xhi: i64, ylo: i64, yhi: i64, zlo: i64, zhi: i64) -> (r:
    Vec<CellPos>)
    requires
        -LATTICE_LIMIT <= xlo <= LATTICE_LIMIT,
        -LATTICE_LIMIT <= xhi <= LATTICE_LIMIT,
        -LATTICE_LIMIT <= ylo <= LATTICE_LIMIT,
        -LATTICE_LIMIT <= yhi <= LATTICE_LIMIT,
        -LATTICE_LIMIT <= zlo <= LATTICE_LIMIT,
        -LATTICE_LIMIT <= zhi <= LATTICE_LIMIT,
    ensures
        r@ == cell_lattice(xlo as int, xhi as int, ylo as int, yhi as int, zlo as int,
            zhi as int),
{
    let mut out: Vec<CellPos> = Vec::new();
    if xhi < xlo || yhi < ylo || zhi < zlo {
        proof {
            lemma_lattice_empty(xlo as int, xhi as int, ylo as int, yhi as int, zlo as int,
                zhi as int);
        }
        return out;
    }
    let mut x = xlo;
    while x <= xhi
        invariant
            xlo <= x <= xhi + 1,
            -LATTICE_LIMIT <= xlo <= LATTICE_LIMIT,
            -LATTICE_LIMIT <= xhi <= LATTICE_LIMIT,
            -LATTICE_LIMIT <= ylo <= LATTICE_LIMIT,
            -LATTICE_LIMIT <= yhi <= LATTICE_LIMIT,
            -LATTICE_LIMIT <= zlo <= LATTICE_LIMIT,
            -LATTICE_LIMIT <= zhi <= LATTICE_LIMIT,
            ylo <= yhi,
            zlo <= zhi,
            out@ == cell_lattice(xlo as int, x - 1, ylo as int, yhi as int, zlo as int,
                zhi as int),
        decreases xhi + 1 - x,
    {
        proof {
            assert(out@ =~= cell_lattice(xlo as int, x - 1, ylo as int, yhi as int,
                zlo as int, zhi as int) + cell_plane(x as int, ylo as int, ylo - 1,
                zlo as int, zhi as int));
        }
        let mut y = ylo;
        while y <= yhi
            invariant
                ylo <= y <= yhi + 1,
                xlo <= x <= xhi,
                -LATTICE_LIMIT <= xlo <= LATTICE_LIMIT,
                -LATTICE_LIMIT <= xhi <= LATTICE_LIMIT,
                -LATTICE_LIMIT <= ylo <= LATTICE_LIMIT,
                -LATTICE_LIMIT <= yhi <= LATTICE_LIMIT,
                -LATTICE_LIMIT <= zlo <= LATTICE_LIMIT,
                -LATTICE_LIMIT <= zhi <= LATTICE_LIMIT,
                zlo <= zhi,
                out@ == cell_lattice(xlo as int, x - 1, ylo as int, yhi as int, zlo as int,
                    zhi as int) + cell_plane(x as int, ylo as int, y - 1, zlo as int,
                    zhi as int),
            decreases yhi + 1 - y,
        {
            proof {
                assert(out@ =~= cell_lattice(xlo as int, x - 1, ylo as int, yhi as int,
                    zlo as int, zhi as int) + cell_plane(x as int, ylo as int, y - 1,
                    zlo as int, zhi as int) + cell_row(x as int, y as int, zlo as int, zlo
                    - 1));
            }
            let mut z = zlo;
            while z <= zhi
                invariant
                    zlo <= z <= zhi + 1,
                    ylo <= y <= yhi,
                    xlo <= x <= xhi,
                    -LATTICE_LIMIT <= xlo <= LATTICE_LIMIT,
                    -LATTICE_LIMIT <= xhi <= LATTICE_LIMIT,
                    -LATTICE_LIMIT <= ylo <= LATTICE_LIMIT,
                    -LATTICE_LIMIT <= yhi <= LATTICE_LIMIT,
                    -LATTICE_LIMIT <= zlo <= LATTICE_LIMIT,
                    -LATTICE_LIMIT <= zhi <= LATTICE_LIMIT,
                    out@ == cell_lattice(xlo as int, x - 1, ylo as int, yhi as int,
                        zlo as int, zhi as int) + cell_plane(x as int, ylo as int, y - 1,
                        zlo as int, zhi as int) + cell_row(x as int, y as int, zlo as int, z
                        - 1),
                decreases zhi + 1 - z,
            {
                out.push(CellPos { x, y, z });
                proof {
                    assert(out@ =~= cell_lattice(xlo as int, x - 1, ylo as int, yhi as int,
                        zlo as int, zhi as int) + cell_plane(x as int, ylo as int, y - 1,
                        zlo as int, zhi as int) + cell_row(x as int, y as int, zlo as int,
                        z as int));
                }
                z += 1;
            }
            proof {
                assert(out@ =~= cell_lattice(xlo as int, x - 1, ylo as int, yhi as int,
                    zlo as int, zhi as int) + cell_plane(x as int, ylo as int, y as int,
                    zlo as int, zhi as int));
            }
            y += 1;
        }
        proof {
            assert(out@ =~= cell_lattice(xlo as int, x as int, ylo as int, yhi as int,
                zlo as int, zhi as int));
        }
        x += 1;
    }
    out
}

/// An inverted range on any axis yields an empty lattice.
proof fn lemma_lattice_empty(xlo: int, xhi: int, ylo: int, yhi: int, zlo: int, zhi: int)
    requires
        xhi < xlo || yhi < ylo || zhi < zlo,
    ensures
        cell_lattice(xlo, xhi, ylo, yhi, zlo, zhi) == Seq::<CellPos>::empty(),
    decreases
            (if xhi + 1 - xlo >= 0 {
                xhi + 1 - xlo
            } else {
                0
            }),
        (if yhi + 1 - ylo >= 0 {
            yhi + 1 - ylo
        } else {
            0
        }),
{
    if xhi < xlo {
    } else {
        lemma_lattice_empty(xlo, xhi - 1, ylo, yhi, zlo, zhi);
        if yhi < ylo {
            assert(cell_plane(xhi, ylo, yhi, zlo, zhi) =~= Seq::<CellPos>::empty());
        } else {
            lemma_plane_of_empty_rows(xhi, ylo, yhi, zlo, zhi);
        }
        assert(cell_lattice(xlo, xhi, ylo, yhi, zlo, zhi) =~= Seq::<CellPos>::empty());
    }
}

proof fn lemma_plane_of_empty_rows(x: int, ylo: int, yhi: int, zlo: int, zhi: int)
    requires
        zhi < zlo,
    ensures
        cell_plane(x, ylo, yhi, zlo, zhi) == Seq::<CellPos>::empty(),
    decreases yhi + 1 - ylo,
{
    if yhi < ylo {
    } else {
        lemma_plane_of_empty_rows(x, ylo, yhi - 1, zlo, zhi);
        assert(cell_plane(x, ylo, yhi, zlo, zhi) =~= Seq::<CellPos>::empty());
    }
}

/// All cells a box intersects: x, y, z from the floor of the box minimum
/// (inclusive) to the ceiling of the box maximum (exclusive).
pub fn aabb_full_block_intersections(aabb: &Aabb) -> (r: Vec<CellPos>)
    requires
        aabb.in_range(),
    ensures
        r@ == cell_lattice(spec_floor_cell(aabb.min.x as int), spec_ceil_cell(
            aabb.max.x as int,
        ) - 1, spec_floor_cell(aabb.min.y as int), spec_ceil_cell(aabb.max.y as int) - 1,
            spec_floor_cell(aabb.min.z as int), spec_ceil_cell(aabb.max.z as int) - 1),
{
    let fx = floor_cell(aabb.min.x);
    let fy = floor_cell(aabb.min.y);
    let fz = floor_cell(aabb.min.z);
    let cx = ceil_cell(aabb.max.x);
    let cy = ceil_cell(aabb.max.y);
    let cz = ceil_cell(aabb.max.z);
    enumerate_lattice(fx, cx - 1, fy, cy - 1, fz, cz - 1)
}

/// Some cell of `cells` is materialised and solid in `t`.
pub open spec fn spec_any_solid(t: Terrain, cells: Seq<CellPos>) -> bool {
    exists|i: int| 0 <= i < cells.len() && t.spec_solid(#[trigger] cells[i])
}

/// Whether the box rests on solid terrain: the box, extended downward by
/// one fixed-point unit, intersects some materialised solid cell.
pub fn is_on_block(hitbox: &Aabb, terrain: &Terrain) -> (r: bool)
    requires
        hitbox.in_range(),
        hitbox.min.y > -crate::num::COORD_LIMIT,
    ensures
        r == spec_any_solid(*terrain, cell_lattice(spec_floor_cell(hitbox.min.x as int),
            spec_ceil_cell(hitbox.max.x as int) - 1, spec_floor_cell(
            hitbox.min.y as int - 1), spec_ceil_cell(hitbox.max.y as int) - 1,
            spec_floor_cell(hitbox.min.z as int), spec_ceil_cell(hitbox.max.z as int) - 1)),
{
    let probe = Aabb {
        min: crate::vec3::Vec3Fix { x: hitbox.min.x, y: hitbox.min.y - 1, z: hitbox.min.z },
        max: hitbox.max,
    };
    let cells = aabb_full_block_intersections(&probe);
    let ghost scells = cell_lattice(spec_floor_cell(hitbox.min.x as int), spec_ceil_cell(
        hitbox.max.x as int,
    ) - 1, spec_floor_cell(hitbox.min.y as int - 1), spec_ceil_cell(hitbox.max.y as int)
        - 1, spec_floor_cell(hitbox.min.z as int), spec_ceil_cell(hitbox.max.z as int) - 1);
    proof {
        assert(probe.min.y as int == hitbox.min.y as int - 1);
        assert(cells@ == scells);
    }
    let mut i: usize = 0;
    while i < cells.len()
        invariant
            0 <= i <= cells@.len(),
            cells@ == scells,
            scells == cell_lattice(spec_floor_cell(hitbox.min.x as int), spec_ceil_cell(
                hitbox.max.x as int,
            ) - 1, spec_floor_cell(hitbox.min.y as int - 1), spec_ceil_cell(
                hitbox.max.y as int,
            ) - 1, spec_floor_cell(hitbox.min.z as int), spec_ceil_cell(
                hitbox.max.z as int,
            ) - 1),
            forall|j: int| 0 <= j < i ==> !terrain.spec_solid(#[trigger] cells@[j]),
        decreases cells@.len() - i,
    {
        match terrain.block_at(cells[i]) {
            Some(b) => {
                if b.solid {
                    proof {
                        let iw = i as int;
                        assert(0 <= iw && iw < scells.len());
                        assert(terrain.spec_solid(scells[iw]));
                        assert(spec_any_solid(*terrain, scells)) by {
                            assert(0 <= iw < scells.len() && terrain.spec_solid(
                                #[trigger] scells[iw]));
                        }
                    }
                    return true;
                }
            },
            None => {},
        }
        i += 1;
    }
    proof {
        if spec_any_solid(*terrain, scells) {
            let j = choose|j: int| 0 <= j < scells.len() && terrain.spec_solid(scells[j]);
            assert(!terrain.spec_solid(cells@[j]));
            assert(false);
        }
    }
    false
}

} // verus!
