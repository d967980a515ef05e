//! Axis-aligned bounding boxes and their derived operations.

use vstd::prelude::*;

use crate::num::COORD_LIMIT;
use crate::vec3::Vec3Fix;

verus! {

/// An axis-aligned box given by its componentwise minimum and maximum
/// corners.  A well-formed box has `min <= max` on every axis.
#[derive(Clone, Copy, Debug, PartialEq, Eq, Structural)]
pub struct Aabb {
    pub min: Vec3Fix,
    pub max: Vec3Fix,
}

impl Aabb {
    /// Componentwise `min <= max`.
    pub open spec fn wf(self) -> bool {
        &&& self.min.x <= self.max.x
        &&& self.min.y <= self.max.y
        &&& self.min.z <= self.max.z
    }

    /// Both corners within [`COORD_LIMIT`].
    pub open spec fn in_range(self) -> bool {
        self.min.in_range() && self.max.in_range()
    }

    /// Positive extent on every axis.  A box that is not proper (zero extent
    /// or inverted on some axis) is degenerate input: it overlaps nothing.
    pub open spec fn proper(self) -> bool {
        &&& self.min.x < self.max.x
        &&& self.min.y < self.max.y
        &&& self.min.z < self.max.z
    }

    /// Whether two boxes overlap: both are proper and their interiors
    /// intersect on every axis.  Boxes that merely touch do not overlap.
    pub open spec fn spec_overlaps(self, other: Aabb) -> bool {
        &&& self.proper()
        &&& other.proper()
        &&& self.min.x < other.max.x && other.min.x < self.max.x
        &&& self.min.y < other.max.y && other.min.y < self.max.y
        &&& self.min.z < other.max.z && other.min.z < self.max.z
    }

    /// `other` lies entirely inside `self` (componentwise).
    pub open spec fn spec_contains_box(self, other: Aabb) -> bool {
        &&& self.min.x <= other.min.x && other.max.x <= self.max.x
        &&& self.min.y <= other.min.y && other.max.y <= self.max.y
        &&& self.min.z <= other.min.z && other.max.z <= self.max.z
    }

    /// The smallest box enclosing both arguments.
    pub open spec fn spec_join(self, other: Aabb) -> Aabb {
        Aabb {
            min: Vec3Fix {
                x: min_i64(self.min.x, other.min.x),
                y: min_i64(self.min.y, other.min.y),
                z: min_i64(self.min.z, other.min.z),
            },
            max: Vec3Fix {
                x: max_i64(self.max.x, other.max.x),
                y: max_i64(self.max.y, other.max.y),
                z: max_i64(self.max.z, other.max.z),
            },
        }
    }

    /// Squared distance from the box to the point `p`: the sum over the axes
    /// of the squared gap between `p` and the box's extent on that axis.
    pub open spec fn spec_dist2(self, p: Vec3Fix) -> int {
        let gx = axis_gap(self.min.x as int, self.max.x as int, p.x as int);
        let gy = axis_gap(self.min.y as int, self.max.y as int, p.y as int);
        let gz = axis_gap(self.min.z as int, self.max.z as int, p.z as int);
        gx * gx + gy * gy + gz * gz
    }

    pub fn new(min: Vec3Fix, max: Vec3Fix) -> (r: Aabb)
        ensures
            r == (Aabb { min, max }),
    {
        Aabb { min, max }
    }

    /// Extent along the x axis.
    pub fn width_x(&self) -> (r: i64)
        requires
            self.in_range(),
        ensures
            r == self.max.x - self.min.x,
    {
        self.max.x - self.min.x
    }

    /// Extent along the y axis.
    pub fn width_y(&self) -> (r: i64)
        requires
            self.in_range(),
        ensures
            r == self.max.y - self.min.y,
    {
        self.max.y - self.min.y
    }

    /// Extent along the z axis.
    pub fn width_z(&self) -> (r: i64)
        requires
            self.in_range(),
        ensures
            r == self.max.z - self.min.z,
    {
        self.max.z - self.min.z
    }

    /// The box shifted by `t`, as a specification value.
    pub open spec fn spec_translate(self, t: Vec3Fix) -> Aabb {
        Aabb {
            min: Vec3Fix {
                x: (self.min.x + t.x) as i64,
                y: (self.min.y + t.y) as i64,
                z: (self.min.z + t.z) as i64,
            },
            max: Vec3Fix {
                x: (self.max.x + t.x) as i64,
                y: (self.max.y + t.y) as i64,
                z: (self.max.z + t.z) as i64,
            },
        }
    }

    /// The box shifted by `translation`.
    pub fn translate(&self, translation: Vec3Fix) -> (r: Aabb)
        requires
            self.in_range(),
            translation.in_range(),
        ensures
            r == self.spec_translate(translation),
            r.min.x == self.min.x + translation.x,
            r.min.y == self.min.y + translation.y,
            r.min.z == self.min.z + translation.z,
            r.max.x == self.max.x + translation.x,
            r.max.y == self.max.y + translation.y,
            r.max.z == self.max.z + translation.z,
    {
        Aabb { min: self.min.add(translation), max: self.max.add(translation) }
    }

    /// Volume of the box, exact, in cubic fixed-point units.
    pub fn volume(&self) -> (r: i128)
        requires
            self.in_range(),
            self.wf(),
            (self.max.x - self.min.x) * (self.max.y - self.min.y) * (self.max.z - self.min.z)
                <= i128::MAX,
        ensures
            r == (self.max.x - self.min.x) * (self.max.y - self.min.y) * (self.max.z
                - self.min.z),
    {
        let wx: i128 = (self.max.x - self.min.x) as i128;
        let wy: i128 = (self.max.y - self.min.y) as i128;
        let wz: i128 = (self.max.z - self.min.z) as i128;
        proof {
            let lim = COORD_LIMIT as int;
            assert(0 <= wx * wy <= (2 * lim) * (2 * lim)) by (nonlinear_arith)
                requires
                    0 <= wx <= 2 * lim,
                    0 <= wy <= 2 * lim,
            ;
            assert(0 <= (wx as int * wy as int) * wz) by (nonlinear_arith)
                requires
                    0 <= wx * wy,
                    0 <= wz,
            ;
        }
        let a: i128 = wx * wy;
        a * wz
    }

    /// Overlap test; exactly [`Aabb::spec_overlaps`].
    pub fn overlaps(&self, other: &Aabb) -> (r: bool)
        ensures
            r == self.spec_overlaps(*other),
    {
        self.min.x < self.max.x && self.min.y < self.max.y && self.min.z < self.max.z
            && other.min.x < other.max.x && other.min.y < other.max.y && other.min.z
            < other.max.z && self.min.x < other.max.x && other.min.x < self.max.x
            && self.min.y < other.max.y && other.min.y < self.max.y && self.min.z
            < other.max.z && other.min.z < self.max.z
    }

    /// The smallest box enclosing both arguments; exactly [`Aabb::spec_join`].
    pub fn join(&self, other: &Aabb) -> (r: Aabb)
        ensures
            r == self.spec_join(*other),
    {
        Aabb {
            min: Vec3Fix {
                x: if self.min.x <= other.min.x {
                    self.min.x
                } else {
                    other.min.x
                },
                y: if self.min.y <= other.min.y {
                    self.min.y
                } else {
                    other.min.y
                },
                z: if self.min.z <= other.min.z {
                    self.min.z
                } else {
                    other.min.z
                },
            },
            max: Vec3Fix {
                x: if self.max.x >= other.max.x {
                    self.max.x
                } else {
                    other.max.x
                },
                y: if self.max.y >= other.max.y {
                    self.max.y
                } else {
                    other.max.y
                },
                z: if self.max.z >= other.max.z {
                    self.max.z
                } else {
                    other.max.z
                },
            },
        }
    }

    /// Squared distance from the box to a point; exactly [`Aabb::spec_dist2`].
    pub fn dist2(&self, p: Vec3Fix) -> (r: i128)
        requires
            self.in_range(),
            p.in_range(),
        ensures
            r == self.spec_dist2(p),
            r >= 0,
    {
        let gx: i128 = axis_gap_exec(self.min.x, self.max.x, p.x);
        let gy: i128 = axis_gap_exec(self.min.y, self.max.y, p.y);
        let gz: i128 = axis_gap_exec(self.min.z, self.max.z, p.z);
        proof {
            lemma_gap_square_bound(self.min.x as int, self.max.x as int, p.x as int);
            lemma_gap_square_bound(self.min.y as int, self.max.y as int, p.y as int);
            lemma_gap_square_bound(self.min.z as int, self.max.z as int, p.z as int);
        }
        gx * gx + gy * gy + gz * gz
    }
}

pub open spec fn min_i64(a: i64, b: i64) -> i64 {
    if a <= b {
        a
    } else {
        b
    }
}

pub open spec fn max_i64(a: i64, b: i64) -> i64 {
    if a >= b {
        a
    } else {
        b
    }
}

/// Distance from `p` to the interval `[lo, hi]` on one axis: zero when `p`
/// lies inside, otherwise the distance to the nearer endpoint.
pub open spec fn axis_gap(lo: int, hi: int, p: int) -> int {
    if p < lo {
        lo - p
    } else if p > hi {
        p - hi
    } else {
        0
    }
}

fn axis_gap_exec(lo: i64, hi: i64, p: i64) -> (r: i128)
    requires
        -COORD_LIMIT <= lo <= COORD_LIMIT,
        -COORD_LIMIT <= hi <= COORD_LIMIT,
        -COORD_LIMIT <= p <= COORD_LIMIT,
    ensures
        r == axis_gap(lo as int, hi as int, p as int),
        0 <= r <= 2 * COORD_LIMIT,
{
    if p < lo {
        (lo as i128) - (p as i128)
    } else if p > hi {
        (p as i128) - (hi as i128)
    } else {
        0
    }
}

proof fn lemma_gap_square_bound(lo: int, hi: int, p: int)
    requires
        -COORD_LIMIT <= lo <= COORD_LIMIT,
        -COORD_LIMIT <= hi <= COORD_LIMIT,
        -COORD_LIMIT <= p <= COORD_LIMIT,
    ensures
        0 <= axis_gap(lo, hi, p) * axis_gap(lo, hi, p) <= 4 * (COORD_LIMIT as int)
            * (COORD_LIMIT as int),
{
    let g = axis_gap(lo, hi, p);
    assert(0 <= g * g <= 4 * (COORD_LIMIT as int) * (COORD_LIMIT as int)) by (nonlinear_arith)
        requires
            0 <= g <= 2 * COORD_LIMIT,
    ;
}

/// If a query box overlaps a box contained in `outer`, it also overlaps
/// `outer`; this is what lets a traversal prune with a node's bounding box.
pub proof fn lemma_overlap_monotone(q: Aabb, inner: Aabb, outer: Aabb)
    requires
        outer.spec_contains_box(inner),
        q.spec_overlaps(inner),
    ensures
        q.spec_overlaps(outer),
{
}

/// A box contained in `outer` is at least as far from any point as `outer`
/// is; this is what makes a node's distance a lower bound for its subtree.
pub proof fn lemma_dist2_monotone(p: Vec3Fix, inner: Aabb, outer: Aabb)
    requires
        inner.wf(),
        outer.spec_contains_box(inner),
    ensures
        outer.spec_dist2(p) <= inner.spec_dist2(p),
{
    lemma_axis_gap_monotone(outer.min.x as int, outer.max.x as int, inner.min.x as int,
        inner.max.x as int, p.x as int);
    lemma_axis_gap_monotone(outer.min.y as int, outer.max.y as int, inner.min.y as int,
        inner.max.y as int, p.y as int);
    lemma_axis_gap_monotone(outer.min.z as int, outer.max.z as int, inner.min.z as int,
        inner.max.z as int, p.z as int);
}

proof fn lemma_axis_gap_monotone(olo: int, ohi: int, ilo: int, ihi: int, p: int)
    requires
        olo <= ilo,
        ihi <= ohi,
        ilo <= ihi,
    ensures
        axis_gap(olo, ohi, p) <= axis_gap(ilo, ihi, p),
        axis_gap(olo, ohi, p) * axis_gap(olo, ohi, p) <= axis_gap(ilo, ihi, p) * axis_gap(
            ilo, ihi, p),
{
    let a = axis_gap(olo, ohi, p);
    let b = axis_gap(ilo, ihi, p);
    assert(a * a <= b * b) by (nonlinear_arith)
        requires
            0 <= a <= b,
    ;
}

/// The join of two boxes contains both.
pub proof fn lemma_join_contains(a: Aabb, b: Aabb)
    ensures
        a.spec_join(b).spec_contains_box(a),
        a.spec_join(b).spec_contains_box(b),
{
}

/// Containment is transitive.
pub proof fn lemma_contains_trans(a: Aabb, b: Aabb, c: Aabb)
    requires
        a.spec_contains_box(b),
        b.spec_contains_box(c),
    ensures
        a.spec_contains_box(c),
{
}

} // verus!
