//! Three-component fixed-point vectors.

use vstd::prelude::*;

use crate::num::{abs_int, fmul, spec_fmul, COORD_LIMIT, SCALE};

verus! {

/// A point or vector in world space; each component counts thousandths of a
/// block ([`crate::num::SCALE`]).
#[derive(Clone, Copy, Debug, PartialEq, Eq, Structural)]
pub struct Vec3Fix {
    pub x: i64,
    pub y: i64,
    pub z: i64,
}

impl Vec3Fix {
    /// All components within [`COORD_LIMIT`], the range in which every
    /// operation of this crate is free of overflow.
    pub open spec fn in_range(self) -> bool {
        &&& -COORD_LIMIT <= self.x <= COORD_LIMIT
        &&& -COORD_LIMIT <= self.y <= COORD_LIMIT
        &&& -COORD_LIMIT <= self.z <= COORD_LIMIT
    }

    /// All components within `lim`.
    pub open spec fn within(self, lim: int) -> bool {
        &&& -lim <= self.x <= lim
        &&& -lim <= self.y <= lim
        &&& -lim <= self.z <= lim
    }

    pub fn new(x: i64, y: i64, z: i64) -> (r: Vec3Fix)
        ensures
            r == (Vec3Fix { x, y, z }),
    {
        Vec3Fix { x, y, z }
    }

    pub fn zero() -> (r: Vec3Fix)
        ensures
            r == (Vec3Fix { x: 0i64, y: 0i64, z: 0i64 }),
    {
        Vec3Fix { x: 0, y: 0, z: 0 }
    }

    /// Componentwise sum.
    pub fn add(self, other: Vec3Fix) -> (r: Vec3Fix)
        requires
            i64::MIN <= self.x + other.x <= i64::MAX,
            i64::MIN <= self.y + other.y <= i64::MAX,
            i64::MIN <= self.z + other.z <= i64::MAX,
        ensures
            r.x == self.x + other.x,
            r.y == self.y + other.y,
            r.z == self.z + other.z,
    {
        Vec3Fix { x: self.x + other.x, y: self.y + other.y, z: self.z + other.z }
    }

    /// Componentwise fixed-point product with the scalar `k`; each component
    /// becomes `c * k / SCALE`, truncated toward zero.
    pub fn scale(self, k: i64) -> (r: Vec3Fix)
        requires
            self.in_range(),
            -SCALE <= k <= SCALE,
        ensures
            r.x == spec_fmul(self.x as int, k as int),
            r.y == spec_fmul(self.y as int, k as int),
            r.z == spec_fmul(self.z as int, k as int),
            abs_int(r.x as int) <= abs_int(self.x as int),
            abs_int(r.y as int) <= abs_int(self.y as int),
            abs_int(r.z as int) <= abs_int(self.z as int),
    {
        proof {
            crate::num::lemma_fmul_contracts(self.x as int, k as int);
            crate::num::lemma_fmul_contracts(self.y as int, k as int);
            crate::num::lemma_fmul_contracts(self.z as int, k as int);
        }
        Vec3Fix { x: fmul(self.x, k), y: fmul(self.y, k), z: fmul(self.z, k) }
    }

    /// Squared Euclidean length, exact (in squared fixed-point units).
    pub fn norm2(self) -> (r: i128)
        requires
            self.in_range(),
        ensures
            r == self.spec_norm2(),
            r >= 0,
    {
        proof {
            lemma_square_nonneg(self.x as int);
            lemma_square_nonneg(self.y as int);
            lemma_square_nonneg(self.z as int);
        }
        (self.x as i128) * (self.x as i128) + (self.y as i128) * (self.y as i128) + (
        self.z as i128) * (self.z as i128)
    }

    pub open spec fn spec_norm2(self) -> int {
        self.x * self.x + self.y * self.y + self.z * self.z
    }

    /// The opposite vector, as a specification value.
    pub open spec fn spec_neg(self) -> Vec3Fix {
        Vec3Fix { x: (-self.x) as i64, y: (-self.y) as i64, z: (-self.z) as i64 }
    }
}

/// A square is never negative, and squaring is monotone on magnitudes.
pub proof fn lemma_square_nonneg(a: int)
    ensures
        a * a >= 0,
        a * a <= COORD_LIMIT * COORD_LIMIT || !(-COORD_LIMIT <= a <= COORD_LIMIT),
{
    assert(a * a >= 0) by (nonlinear_arith);
    if -COORD_LIMIT <= a <= COORD_LIMIT {
        assert(a * a <= COORD_LIMIT * COORD_LIMIT) by (nonlinear_arith)
            requires
                -COORD_LIMIT <= a <= COORD_LIMIT,
        ;
    }
}

} // verus!
