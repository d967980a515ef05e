//! Swept AABB narrowphase: earliest time of impact of a moving box against a
//! static box.
//!
//! Times are fractions of this tick's displacement, kept as exact rationals
//! ([`Frac`]) rather than floating point, with signed-infinity sentinels
//! ([`AxisTime`]) for the zero-velocity cases, so the `max`/`min` reduction
//! over the axes is exact and can never be corrupted by `NaN`.

use vstd::prelude::*;

use crate::aabb::Aabb;
use crate::num::{abs_int, div_trunc_i128, trunc_div, COORD_LIMIT};
use crate::vec3::Vec3Fix;

verus! {

/// Bound on the numerator magnitude and denominator of a well-formed
/// [`Frac`]; keeps every cross-multiplication inside `i128`.
pub const FRAC_LIMIT: i128 = 1_000_000_000_000_000_000;

/// An exact rational `num / den` with positive denominator.
#[derive(Clone, Copy, Debug, PartialEq, Eq, Structural)]
pub struct Frac {
    pub num: i128,
    pub den: i128,
}

impl Frac {
    pub open spec fn wf(self) -> bool {
        &&& 0 < self.den <= FRAC_LIMIT
        &&& -FRAC_LIMIT <= self.num <= FRAC_LIMIT
    }

    /// `self <= other` as rationals.
    pub open spec fn spec_le(self, other: Frac) -> bool {
        self.num * other.den <= other.num * self.den
    }
}

/// An entry or exit time on one axis: a finite fraction of the tick, or a
/// signed-infinity sentinel for an axis without motion.
#[derive(Clone, Copy, Debug, PartialEq, Eq, Structural)]
pub enum AxisTime {
    NegInf,
    Fin(Frac),
    PosInf,
}

impl AxisTime {
    pub open spec fn wf(self) -> bool {
        match self {
            AxisTime::Fin(f) => f.wf(),
            _ => true,
        }
    }

    /// Total order on axis times.
    pub open spec fn spec_le(self, other: AxisTime) -> bool {
        match (self, other) {
            (AxisTime::NegInf, _) => true,
            (_, AxisTime::PosInf) => true,
            (AxisTime::PosInf, _) => false,
            (_, AxisTime::NegInf) => false,
            (AxisTime::Fin(f), AxisTime::Fin(g)) => f.spec_le(g),
        }
    }

    /// Equal as times (two fractions are compared by value, not shape).
    pub open spec fn spec_eq(self, other: AxisTime) -> bool {
        self.spec_le(other) && other.spec_le(self)
    }

    /// Strictly earlier than time zero.
    pub open spec fn spec_lt_zero(self) -> bool {
        match self {
            AxisTime::NegInf => true,
            AxisTime::PosInf => false,
            AxisTime::Fin(f) => f.num < 0,
        }
    }

    /// Strictly later than time one (the end of this tick).
    pub open spec fn spec_gt_one(self) -> bool {
        match self {
            AxisTime::NegInf => false,
            AxisTime::PosInf => true,
            AxisTime::Fin(f) => f.num > f.den,
        }
    }

    /// The later of two times; on equal values keeps the second.
    pub open spec fn spec_max(self, other: AxisTime) -> AxisTime {
        if self.spec_le(other) {
            other
        } else {
            self
        }
    }

    /// The earlier of two times; on equal values keeps the first.
    pub open spec fn spec_min(self, other: AxisTime) -> AxisTime {
        if self.spec_le(other) {
            self
        } else {
            other
        }
    }
}

/// Comparison of two axis times; exactly [`AxisTime::spec_le`].
pub fn time_le(a: &AxisTime, b: &AxisTime) -> (r: bool)
    requires
        a.wf(),
        b.wf(),
    ensures
        r == a.spec_le(*b),
{
    match (a, b) {
        (AxisTime::NegInf, _) => true,
        (_, AxisTime::PosInf) => true,
        (AxisTime::PosInf, _) => false,
        (_, AxisTime::NegInf) => false,
        (AxisTime::Fin(f), AxisTime::Fin(g)) => {
            proof {
                lemma_cross_mul_in_range(*f, *g);
            }
            f.num * g.den <= g.num * f.den
        },
    }
}

/// Cross-multiplications of well-formed fractions stay inside `i128`.
pub proof fn lemma_cross_mul_in_range(f: Frac, g: Frac)
    requires
        f.wf(),
        g.wf(),
    ensures
        -(FRAC_LIMIT * FRAC_LIMIT) <= f.num * g.den <= FRAC_LIMIT * FRAC_LIMIT,
        -(FRAC_LIMIT * FRAC_LIMIT) <= g.num * f.den <= FRAC_LIMIT * FRAC_LIMIT,
{
    assert(-(FRAC_LIMIT * FRAC_LIMIT) <= f.num * g.den <= FRAC_LIMIT * FRAC_LIMIT)
        by (nonlinear_arith)
        requires
            -FRAC_LIMIT <= f.num <= FRAC_LIMIT,
            0 < g.den <= FRAC_LIMIT,
    ;
    assert(-(FRAC_LIMIT * FRAC_LIMIT) <= g.num * f.den <= FRAC_LIMIT * FRAC_LIMIT)
        by (nonlinear_arith)
        requires
            -FRAC_LIMIT <= g.num <= FRAC_LIMIT,
            0 < f.den <= FRAC_LIMIT,
    ;
}

/// The order on axis times is total.
pub proof fn lemma_time_le_total(a: AxisTime, b: AxisTime)
    ensures
        a.spec_le(b) || b.spec_le(a),
{
}

/// The order on axis times is transitive.
pub proof fn lemma_time_le_trans(a: AxisTime, b: AxisTime, c: AxisTime)
    requires
        a.wf(),
        b.wf(),
        c.wf(),
        a.spec_le(b),
        b.spec_le(c),
    ensures
        a.spec_le(c),
{
    match (a, b, c) {
        (AxisTime::Fin(f), AxisTime::Fin(g), AxisTime::Fin(h)) => {
            assert(f.num * h.den <= h.num * f.den) by (nonlinear_arith)
                requires
                    f.num * g.den <= g.num * f.den,
                    g.num * h.den <= h.num * g.den,
                    f.den > 0,
                    g.den > 0,
                    h.den > 0,
            ;
        },
        _ => {},
    }
}

/// A time at least as late as a nonnegative finite time is itself
/// nonnegative.
proof fn lemma_le_preserves_nonneg(f: Frac, g: Frac)
    requires
        f.wf(),
        g.wf(),
        f.num >= 0,
        AxisTime::Fin(f).spec_le(AxisTime::Fin(g)),
    ensures
        g.num >= 0,
{
    assert(g.num >= 0) by (nonlinear_arith)
        requires
            f.num * g.den <= g.num * f.den,
            f.num >= 0,
            f.den > 0,
            g.den > 0,
    ;
}

/// Per-axis collision direction: `None` when the axis did not control the
/// collision, `Some(true)` when the moving box struck travelling toward the
/// negative side (so the contact normal points in the positive direction).
#[derive(Clone, Copy, Debug, PartialEq, Eq, Structural)]
pub struct CollisionNormals {
    pub x: Option<bool>,
    pub y: Option<bool>,
    pub z: Option<bool>,
}

impl CollisionNormals {
    /// Whether any axis controlled the collision.
    pub open spec fn spec_any(self) -> bool {
        self.x is Some || self.y is Some || self.z is Some
    }

    pub fn any(&self) -> (r: bool)
        ensures
            r == self.spec_any(),
    {
        self.x.is_some() || self.y.is_some() || self.z.is_some()
    }
}

/// The outcome of a swept collision: when (as an exact fraction of this
/// tick's displacement) the boxes first touch, and on which axes.
#[derive(Clone, Copy, Debug, PartialEq, Eq, Structural)]
pub struct CollisionResult {
    pub entry_time: Frac,
    pub face_direction: CollisionNormals,
}

/// Entry time of the moving extent `[mlo, mhi]`, displaced by `d` over the
/// tick, against the static extent `[slo, shi]`; without motion the axis
/// counts as entered since forever (separation is checked apart).
pub open spec fn spec_axis_entry(mlo: int, mhi: int, slo: int, shi: int, d: int) -> AxisTime {
    if d > 0 {
        AxisTime::Fin(Frac { num: (slo - mhi) as i128, den: d as i128 })
    } else if d < 0 {
        AxisTime::Fin(Frac { num: (mlo - shi) as i128, den: (-d) as i128 })
    } else {
        AxisTime::NegInf
    }
}

/// Exit time on one axis; without motion the axis is never left.
pub open spec fn spec_axis_exit(mlo: int, mhi: int, slo: int, shi: int, d: int) -> AxisTime {
    if d > 0 {
        AxisTime::Fin(Frac { num: (shi - mlo) as i128, den: d as i128 })
    } else if d < 0 {
        AxisTime::Fin(Frac { num: (mhi - slo) as i128, den: (-d) as i128 })
    } else {
        AxisTime::PosInf
    }
}

/// A motionless axis on which the extents are separated: the boxes can never
/// meet.
pub open spec fn spec_axis_separated(mlo: int, mhi: int, slo: int, shi: int, d: int) -> bool {
    d == 0 && (mhi < slo || mlo > shi)
}

/// Overall entry time: the latest of the three axis entries.
pub open spec fn spec_entry_time(m: Aabb, d: Vec3Fix, s: Aabb) -> AxisTime {
    let ex = spec_axis_entry(m.min.x as int, m.max.x as int, s.min.x as int, s.max.x as int,
        d.x as int);
    let ey = spec_axis_entry(m.min.y as int, m.max.y as int, s.min.y as int, s.max.y as int,
        d.y as int);
    let ez = spec_axis_entry(m.min.z as int, m.max.z as int, s.min.z as int, s.max.z as int,
        d.z as int);
    ex.spec_max(ey).spec_max(ez)
}

/// Overall exit time: the earliest of the three axis exits.
pub open spec fn spec_exit_time(m: Aabb, d: Vec3Fix, s: Aabb) -> AxisTime {
    let xx = spec_axis_exit(m.min.x as int, m.max.x as int, s.min.x as int, s.max.x as int,
        d.x as int);
    let xy = spec_axis_exit(m.min.y as int, m.max.y as int, s.min.y as int, s.max.y as int,
        d.y as int);
    let xz = spec_axis_exit(m.min.z as int, m.max.z as int, s.min.z as int, s.max.z as int,
        d.z as int);
    xx.spec_min(xy).spec_min(xz)
}

/// The fraction held by a finite axis time.
pub open spec fn spec_frac_of(t: AxisTime) -> Frac {
    match t {
        AxisTime::Fin(f) => f,
        _ => Frac { num: 0, den: 1 },
    }
}

/// The complete outcome of the swept test of `m`, displaced by `d` over this
/// tick, against the static box `s`.
///
/// There is no collision when a motionless axis is separated, when every
/// axis entry lies before this tick (the boxes are already past contact),
/// when some axis entry lies beyond this tick, or when the overall entry
/// comes after the overall exit.  Otherwise the result carries the overall
/// entry time and, for each axis whose entry equals it, the side the moving
/// box approached from.
pub open spec fn spec_swept(m: Aabb, d: Vec3Fix, s: Aabb) -> Option<CollisionResult> {
    if spec_axis_separated(m.min.x as int, m.max.x as int, s.min.x as int, s.max.x as int,
        d.x as int) || spec_axis_separated(m.min.y as int, m.max.y as int, s.min.y as int,
        s.max.y as int, d.y as int) || spec_axis_separated(m.min.z as int, m.max.z as int,
        s.min.z as int, s.max.z as int, d.z as int) {
        None
    } else {
        let ex = spec_axis_entry(m.min.x as int, m.max.x as int, s.min.x as int,
            s.max.x as int, d.x as int);
        let ey = spec_axis_entry(m.min.y as int, m.max.y as int, s.min.y as int,
            s.max.y as int, d.y as int);
        let ez = spec_axis_entry(m.min.z as int, m.max.z as int, s.min.z as int,
            s.max.z as int, d.z as int);
        if ex.spec_lt_zero() && ey.spec_lt_zero() && ez.spec_lt_zero() {
            None
        } else if ex.spec_gt_one() || ey.spec_gt_one() || ez.spec_gt_one() {
            None
        } else {
            let entry = spec_entry_time(m, d, s);
            let exit = spec_exit_time(m, d, s);
            if !entry.spec_le(exit) {
                None
            } else {
                Some(
                    CollisionResult {
                        entry_time: spec_frac_of(entry),
                        face_direction: CollisionNormals {
                            x: if entry.spec_eq(ex) {
                                Some(d.x <= 0)
                            } else {
                                None
                            },
                            y: if entry.spec_eq(ey) {
                                Some(d.y <= 0)
                            } else {
                                None
                            },
                            z: if entry.spec_eq(ez) {
                                Some(d.z <= 0)
                            } else {
                                None
                            },
                        },
                    },
                )
            }
        }
    }
}

/// Entry time of one axis; exactly [`spec_axis_entry`].
fn axis_entry(mlo: i64, mhi: i64, slo: i64, shi: i64, d: i64) -> (r: AxisTime)
    requires
        -COORD_LIMIT <= mlo <= COORD_LIMIT,
        -COORD_LIMIT <= mhi <= COORD_LIMIT,
        -COORD_LIMIT <= slo <= COORD_LIMIT,
        -COORD_LIMIT <= shi <= COORD_LIMIT,
        -COORD_LIMIT <= d <= COORD_LIMIT,
    ensures
        r == spec_axis_entry(mlo as int, mhi as int, slo as int, shi as int, d as int),
        r.wf(),
{
    if d > 0 {
        AxisTime::Fin(Frac { num: (slo as i128) - (mhi as i128), den: d as i128 })
    } else if d < 0 {
        AxisTime::Fin(Frac { num: (mlo as i128) - (shi as i128), den: -(d as i128) })
    } else {
        AxisTime::NegInf
    }
}

/// Exit time of one axis; exactly [`spec_axis_exit`].
fn axis_exit(mlo: i64, mhi: i64, slo: i64, shi: i64, d: i64) -> (r: AxisTime)
    requires
        -COORD_LIMIT <= mlo <= COORD_LIMIT,
        -COORD_LIMIT <= mhi <= COORD_LIMIT,
        -COORD_LIMIT <= slo <= COORD_LIMIT,
        -COORD_LIMIT <= shi <= COORD_LIMIT,
        -COORD_LIMIT <= d <= COORD_LIMIT,
    ensures
        r == spec_axis_exit(mlo as int, mhi as int, slo as int, shi as int, d as int),
        r.wf(),
{
    if d > 0 {
        AxisTime::Fin(Frac { num: (shi as i128) - (mlo as i128), den: d as i128 })
    } else if d < 0 {
        AxisTime::Fin(Frac { num: (mhi as i128) - (slo as i128), den: -(d as i128) })
    } else {
        AxisTime::PosInf
    }
}

/// Swept AABB collision of the moving box `hb1`, displaced by `velocity`
/// over this tick, against the static box `hb2`; exactly [`spec_swept`].
///
/// `velocity` is the displacement covered this tick (velocity times the tick
/// length), so the reported entry time is a fraction of this tick.
pub fn swept_aabb_collide(hb1: &Aabb, velocity: &Vec3Fix, hb2: &Aabb) -> (r: Option<
    CollisionResult,
>)
    requires
        hb1.in_range(),
        hb2.in_range(),
        velocity.in_range(),
    ensures
        r == spec_swept(*hb1, *velocity, *hb2),
        r matches Some(c) ==> c.entry_time.wf() && 0 <= c.entry_time.num
            <= c.entry_time.den && c.face_direction.spec_any(),
{
    let d = *velocity;
    let m = *hb1;
    let s = *hb2;
    if d.x == 0 && (m.max.x < s.min.x || m.min.x > s.max.x) {
        return None;
    }
    if d.y == 0 && (m.max.y < s.min.y || m.min.y > s.max.y) {
        return None;
    }
    if d.z == 0 && (m.max.z < s.min.z || m.min.z > s.max.z) {
        return None;
    }
    let ex = axis_entry(m.min.x, m.max.x, s.min.x, s.max.x, d.x);
    let ey = axis_entry(m.min.y, m.max.y, s.min.y, s.max.y, d.y);
    let ez = axis_entry(m.min.z, m.max.z, s.min.z, s.max.z, d.z);
    let x_neg = match ex {
        AxisTime::NegInf => true,
        AxisTime::PosInf => false,
        AxisTime::Fin(f) => f.num < 0,
    };
    let y_neg = match ey {
        AxisTime::NegInf => true,
        AxisTime::PosInf => false,
        AxisTime::Fin(f) => f.num < 0,
    };
    let z_neg = match ez {
        AxisTime::NegInf => true,
        AxisTime::PosInf => false,
        AxisTime::Fin(f) => f.num < 0,
    };
    if x_neg && y_neg && z_neg {
        return None;
    }
    let x_late = match ex {
        AxisTime::NegInf => false,
        AxisTime::PosInf => true,
        AxisTime::Fin(f) => f.num > f.den,
    };
    let y_late = match ey {
        AxisTime::NegInf => false,
        AxisTime::PosInf => true,
        AxisTime::Fin(f) => f.num > f.den,
    };
    let z_late = match ez {
        AxisTime::NegInf => false,
        AxisTime::PosInf => true,
        AxisTime::Fin(f) => f.num > f.den,
    };
    if x_late || y_late || z_late {
        return None;
    }
    let exy = if time_le(&ex, &ey) {
        ey
    } else {
        ex
    };
    let entry = if time_le(&exy, &ez) {
        ez
    } else {
        exy
    };
    let xx = axis_exit(m.min.x, m.max.x, s.min.x, s.max.x, d.x);
    let xy = axis_exit(m.min.y, m.max.y, s.min.y, s.max.y, d.y);
    let xz = axis_exit(m.min.z, m.max.z, s.min.z, s.max.z, d.z);
    let xxy = if time_le(&xx, &xy) {
        xx
    } else {
        xy
    };
    let exit = if time_le(&xxy, &xz) {
        xxy
    } else {
        xz
    };
    if !time_le(&entry, &exit) {
        return None;
    }
    let nx = if time_le(&entry, &ex) && time_le(&ex, &entry) {
        Some(d.x <= 0)
    } else {
        None
    };
    let ny = if time_le(&entry, &ey) && time_le(&ey, &entry) {
        Some(d.y <= 0)
    } else {
        None
    };
    let nz = if time_le(&entry, &ez) && time_le(&ez, &entry) {
        Some(d.z <= 0)
    } else {
        None
    };
    let entry_frac = match entry {
        AxisTime::Fin(f) => f,
        _ => Frac { num: 0, den: 1 },
    };
    proof {
        // The overall entry is one of the axis entries and bounds all three.
        lemma_time_le_total(ex, ey);
        lemma_time_le_total(exy, ez);
        assert(entry == ex || entry == ey || entry == ez);
        assert(ex.spec_le(exy) && ey.spec_le(exy));
        if exy.spec_le(ez) {
            lemma_time_le_trans(ex, exy, ez);
            lemma_time_le_trans(ey, exy, ez);
        }
        assert(ex.spec_le(entry) && ey.spec_le(entry) && ez.spec_le(entry));
        // Some axis entry is a finite nonnegative time, so the overall entry
        // is finite and nonnegative as well.
        let nonneg = if !x_neg {
            ex
        } else if !y_neg {
            ey
        } else {
            ez
        };
        assert(nonneg matches AxisTime::Fin(f) && f.num >= 0);
        let f = nonneg->Fin_0;
        assert(entry matches AxisTime::Fin(g));
        let g = entry->Fin_0;
        lemma_le_preserves_nonneg(f, g);
        assert(g.num <= g.den);
    }
    Some(
        CollisionResult {
            entry_time: entry_frac,
            face_direction: CollisionNormals { x: nx, y: ny, z: nz },
        },
    )
}

/// The collision epsilon: entry times are pulled back by one hundredth of a
/// tick so that a resolved body never rests exactly on the contact plane.
pub const EPSILON_DEN: i128 = 100;

/// `t - 1/EPSILON_DEN`, exactly.
pub fn entry_minus_epsilon(t: Frac) -> (r: Frac)
    requires
        t.wf(),
    ensures
        r.num == t.num * EPSILON_DEN - t.den,
        r.den == t.den * EPSILON_DEN,
        r.den > 0,
{
    Frac { num: t.num * EPSILON_DEN - t.den, den: t.den * EPSILON_DEN }
}

/// Partial advance along one axis: the displacement `d` scaled by the
/// fraction `t`, truncated toward zero.  Used to move a body up to (just
/// short of) its first contact.
pub fn advance_along(d: i64, t: Frac) -> (r: i64)
    requires
        -COORD_LIMIT <= d <= COORD_LIMIT,
        0 < t.den <= FRAC_LIMIT * EPSILON_DEN,
        -t.den <= t.num <= t.den,
    ensures
        r == trunc_div(d * t.num, t.den as int),
        abs_int(r as int) <= abs_int(d as int),
{
    proof {
        lemma_advance_bound(d as int, t.num as int, t.den as int);
    }
    let wide: i128 = (d as i128) * t.num;
    let q = div_trunc_i128(wide, t.den);
    q as i64
}

proof fn lemma_advance_bound(d: int, num: int, den: int)
    requires
        0 < den <= FRAC_LIMIT * EPSILON_DEN,
        -den <= num <= den,
        -COORD_LIMIT <= d <= COORD_LIMIT,
    ensures
        abs_int(trunc_div(d * num, den)) <= abs_int(d),
        abs_int(d * num) <= COORD_LIMIT * (FRAC_LIMIT * EPSILON_DEN),
{
    let p = d * num;
    crate::num::lemma_trunc_div_bound(p, den);
    assert(-(abs_int(d) * den) <= p <= abs_int(d) * den) by (nonlinear_arith)
        requires
            -den <= num <= den,
            p == d * num,
            den > 0,
    ;
    assert(abs_int(d) * den <= COORD_LIMIT * (FRAC_LIMIT * EPSILON_DEN)) by (nonlinear_arith)
        requires
            0 <= abs_int(d) <= COORD_LIMIT,
            0 < den <= FRAC_LIMIT * EPSILON_DEN,
    ;
    if p >= 0 {
        vstd::arithmetic::div_mod::lemma_div_is_ordered(p, abs_int(d) * den, den);
        vstd::arithmetic::div_mod::lemma_div_by_multiple(abs_int(d), den);
        assert(p / den <= abs_int(d));
        assert(trunc_div(p, den) == p / den);
    } else {
        vstd::arithmetic::div_mod::lemma_div_is_ordered(-p, abs_int(d) * den, den);
        vstd::arithmetic::div_mod::lemma_div_by_multiple(abs_int(d), den);
        assert((-p) / den <= abs_int(d));
        assert(trunc_div(p, den) == -((-p) / den));
    }
}

} // verus!
