//! The laws the library guarantees, stated over the same specification
//! functions its contracts use and proved once and for all.

use vstd::prelude::*;

use crate::aabb::Aabb;
use crate::broadphase::Terrain;
use crate::bvh::{overlap_pred, Bvh, BvhEntry};
use crate::num::SCALE;
use crate::step::{spec_step_body, BodyState, EntityEntityCollisionEvent};
use crate::swept::{
    spec_axis_entry, spec_axis_exit, spec_entry_time, spec_exit_time, spec_swept, AxisTime,
    Frac,
};
use crate::vec3::Vec3Fix;

verus! {

/// How often a value occurs in a filtered sequence: its full count when it
/// satisfies the predicate, never otherwise.
pub proof fn lemma_filter_count<A>(s: Seq<A>, pred: spec_fn(A) -> bool, x: A)
    ensures
        s.filter(pred).to_multiset().count(x) == if pred(x) {
            s.to_multiset().count(x)
        } else {
            0
        },
    decreases s.len(),
{
    broadcast use vstd::seq_lib::group_to_multiset_ensures;
    broadcast use vstd::multiset::group_multiset_axioms;

    reveal(Seq::filter);
    if s.len() == 0 {
        assert(s.to_multiset().len() == 0);
        assert(s.to_multiset().count(x) == 0);
        assert(s.filter(pred).to_multiset().count(x) == 0);
    } else {
        let dl = s.drop_last();
        lemma_filter_count(dl, pred, x);
        assert(s =~= dl.push(s.last()));
        assert(s.to_multiset() =~= dl.push(s.last()).to_multiset());
        assert(dl.push(s.last()).to_multiset() =~= dl.to_multiset().insert(s.last()));
        if pred(s.last()) {
            assert(s.filter(pred) == dl.filter(pred).push(s.last()));
            assert(s.filter(pred).to_multiset() =~= dl.filter(pred).to_multiset().insert(
                s.last(),
            ));
        } else {
            assert(s.filter(pred) == dl.filter(pred));
        }
    }
}

/// Every element of a filtered sequence comes from the original.
pub proof fn lemma_filter_subset<A>(s: Seq<A>, pred: spec_fn(A) -> bool)
    ensures
        forall|i: int|
            0 <= i < s.filter(pred).len() ==> s.contains(#[trigger] s.filter(pred)[i]),
    decreases s.len(),
{
    reveal(Seq::filter);
    if s.len() > 0 {
        let dl = s.drop_last();
        lemma_filter_subset(dl, pred);
        assert forall|i: int| 0 <= i < s.filter(pred).len() implies s.contains(
            #[trigger] s.filter(pred)[i],
        ) by {
            if pred(s.last()) && i == s.filter(pred).len() - 1 {
                assert(s[s.len() - 1] == s.filter(pred)[i]);
            } else {
                assert(s.filter(pred)[i] == dl.filter(pred)[i]);
                assert(dl.contains(dl.filter(pred)[i]));
                let j = choose|j: int| 0 <= j < dl.len() && dl[j] == dl.filter(pred)[i];
                assert(s[j] == s.filter(pred)[i]);
            }
        }
    }
}

/// A range query on the built index answers exactly what a brute-force
/// linear scan over the original entries answers: the filtered collections
/// are equal as multisets (so in particular as payload sets), for any query
/// box.  The index may hold the entries in any order with the same
/// multiset, which is what a rebuild guarantees.
pub proof fn lemma_range_query_matches_scan(indexed: Seq<BvhEntry>, scan: Seq<BvhEntry>, q: Aabb)
    requires
        indexed.to_multiset() == scan.to_multiset(),
    ensures
        indexed.filter(overlap_pred(q)).to_multiset() == scan.filter(
            overlap_pred(q),
        ).to_multiset(),
        forall|e: BvhEntry|
            #[trigger] indexed.filter(overlap_pred(q)).contains(e) <==> scan.filter(
                overlap_pred(q),
            ).contains(e),
{
    broadcast use vstd::seq_lib::group_to_multiset_ensures;
    broadcast use vstd::multiset::group_multiset_axioms;

    let fa = indexed.filter(overlap_pred(q));
    let fb = scan.filter(overlap_pred(q));
    assert forall|x: BvhEntry| #[trigger] fa.to_multiset().count(x) == fb.to_multiset().count(
        x,
    ) by {
        lemma_filter_count(indexed, overlap_pred(q), x);
        lemma_filter_count(scan, overlap_pred(q), x);
    }
    assert(fa.to_multiset() =~= fb.to_multiset());
    assert forall|e: BvhEntry| #[trigger] fa.contains(e) <==> fb.contains(e) by {
        assert(fa.contains(e) <==> fa.to_multiset().count(e) > 0);
        assert(fb.contains(e) <==> fb.to_multiset().count(e) > 0);
    }
}

/// A degenerate (zero-extent or inverted) query box matches nothing: the
/// filtered result is empty whatever the entries are.
pub proof fn lemma_degenerate_query_empty(s: Seq<BvhEntry>, q: Aabb)
    requires
        !q.proper(),
    ensures
        s.filter(overlap_pred(q)) == Seq::<BvhEntry>::empty(),
{
    assert(s.all(|e: BvhEntry| !(overlap_pred(q)(e))));
    s.lemma_all_neg_filter_empty(overlap_pred(q));
    assert(s.filter(overlap_pred(q)) =~= Seq::<BvhEntry>::empty());
}

/// An index holding no entries answers every range query with nothing (and
/// by the nearest query's contract, every nearest query with `None`).
pub proof fn lemma_empty_index_queries_empty(b: Bvh, q: Aabb)
    requires
        b.entries().len() == 0,
    ensures
        b.entries().filter(overlap_pred(q)) == Seq::<BvhEntry>::empty(),
{
    assert(b.entries().all(|e: BvhEntry| !(overlap_pred(q)(e))));
    b.entries().lemma_all_neg_filter_empty(overlap_pred(q));
    assert(b.entries().filter(overlap_pred(q)) =~= Seq::<BvhEntry>::empty());
}

/// What the nearest query returns is also the brute-force minimum over the
/// original entries: the witness is among them and no entry is closer, so
/// the reported distance equals the linear-scan minimum exactly (entries at
/// equal distance may differ in which one is named).
pub proof fn lemma_nearest_matches_scan(
    indexed: Seq<BvhEntry>,
    scan: Seq<BvhEntry>,
    p: Vec3Fix,
    e: BvhEntry,
    d: i128,
)
    requires
        indexed.to_multiset() == scan.to_multiset(),
        indexed.contains(e),
        d == e.aabb.spec_dist2(p),
        forall|i: int|
            0 <= i < indexed.len() ==> d <= (#[trigger] indexed[i]).aabb.spec_dist2(p),
    ensures
        scan.contains(e),
        forall|i: int| 0 <= i < scan.len() ==> d <= (#[trigger] scan[i]).aabb.spec_dist2(p),
{
    broadcast use vstd::seq_lib::group_to_multiset_ensures;

    assert(indexed.to_multiset().count(e) > 0);
    assert(scan.contains(e));
    assert forall|i: int| 0 <= i < scan.len() implies d <= (
    #[trigger] scan[i]).aabb.spec_dist2(p) by {
        assert(scan.contains(scan[i]));
        assert(scan.to_multiset().count(scan[i]) > 0);
        assert(indexed.contains(scan[i]));
        let j = choose|j: int| 0 <= j < indexed.len() && indexed[j] == scan[i];
        assert(d <= indexed[j].aabb.spec_dist2(p));
    }
}

/// The time `1 - t`, the mirror of an axis time under time reversal.
pub open spec fn one_minus(t: AxisTime) -> AxisTime {
    match t {
        AxisTime::NegInf => AxisTime::PosInf,
        AxisTime::PosInf => AxisTime::NegInf,
        AxisTime::Fin(f) => AxisTime::Fin(Frac { num: (f.den - f.num) as i128, den: f.den }),
    }
}

/// Subtracting from one reverses the order of times.
proof fn lemma_one_minus_le_swap(a: AxisTime, b: AxisTime)
    requires
        a.wf(),
        b.wf(),
    ensures
        one_minus(a).spec_le(one_minus(b)) <==> b.spec_le(a),
{
    match (a, b) {
        (AxisTime::Fin(f), AxisTime::Fin(g)) => {
            assert(one_minus(a)->Fin_0.num == f.den - f.num);
            assert(one_minus(b)->Fin_0.num == g.den - g.num);
            assert(((f.den - f.num) * g.den <= (g.den - g.num) * f.den) <==> (g.num * f.den
                <= f.num * g.den)) by (nonlinear_arith);
        },
        _ => {},
    }
}

/// The earlier of two times is one of them and below both.
proof fn lemma_min2(a: AxisTime, b: AxisTime)
    requires
        a.wf(),
        b.wf(),
    ensures
        a.spec_min(b).spec_le(a),
        a.spec_min(b).spec_le(b),
        a.spec_min(b) == a || a.spec_min(b) == b,
{
    crate::swept::lemma_time_le_total(a, b);
}

/// The later of two times is one of them and above both.
proof fn lemma_max2(a: AxisTime, b: AxisTime)
    requires
        a.wf(),
        b.wf(),
    ensures
        a.spec_le(a.spec_max(b)),
        b.spec_le(a.spec_max(b)),
        a.spec_max(b) == a || a.spec_max(b) == b,
{
    crate::swept::lemma_time_le_total(a, b);
}

/// On one axis, running the collision backwards (from the displaced
/// position, with the opposite motion) turns the exit time `t` into the
/// entry time `1 - t` and the entry time into `1 - entry`, exactly.
proof fn lemma_axis_time_reversal(mlo: int, mhi: int, slo: int, shi: int, d: int)
    requires
        -crate::num::COORD_LIMIT <= mlo <= crate::num::COORD_LIMIT,
        -crate::num::COORD_LIMIT <= mhi <= crate::num::COORD_LIMIT,
        -crate::num::COORD_LIMIT <= slo <= crate::num::COORD_LIMIT,
        -crate::num::COORD_LIMIT <= shi <= crate::num::COORD_LIMIT,
        -crate::num::COORD_LIMIT <= d <= crate::num::COORD_LIMIT,
    ensures
        spec_axis_entry(mlo + d, mhi + d, slo, shi, -d) == one_minus(
            spec_axis_exit(mlo, mhi, slo, shi, d),
        ),
        spec_axis_exit(mlo + d, mhi + d, slo, shi, -d) == one_minus(
            spec_axis_entry(mlo, mhi, slo, shi, d),
        ),
{
}

/// A finite axis time built from in-range coordinates is well-formed.
proof fn lemma_axis_time_wf(mlo: int, mhi: int, slo: int, shi: int, d: int)
    requires
        -crate::num::COORD_LIMIT <= mlo <= crate::num::COORD_LIMIT,
        -crate::num::COORD_LIMIT <= mhi <= crate::num::COORD_LIMIT,
        -crate::num::COORD_LIMIT <= slo <= crate::num::COORD_LIMIT,
        -crate::num::COORD_LIMIT <= shi <= crate::num::COORD_LIMIT,
        -crate::num::COORD_LIMIT <= d <= crate::num::COORD_LIMIT,
    ensures
        spec_axis_entry(mlo, mhi, slo, shi, d).wf(),
        spec_axis_exit(mlo, mhi, slo, shi, d).wf(),
        one_minus(spec_axis_entry(mlo, mhi, slo, shi, d)).wf(),
        one_minus(spec_axis_exit(mlo, mhi, slo, shi, d)).wf(),
{
}

/// Swept collision is symmetric under time reversal: a box that would meet
/// a static box between entry time `t_in` and exit time `t_out` of this
/// tick, moved to the end of its displacement and sent back with the
/// opposite velocity, reports entry time `1 - t_out` and exit time
/// `1 - t_in` (as time values; signed infinities mirror accordingly).
pub proof fn lemma_swept_time_reversal(m: Aabb, d: Vec3Fix, s: Aabb)
    requires
        m.in_range(),
        s.in_range(),
        d.in_range(),
        m.spec_translate(d).in_range(),
    ensures
        spec_entry_time(m.spec_translate(d), d.spec_neg(), s).spec_eq(
            one_minus(spec_exit_time(m, d, s)),
        ),
        spec_exit_time(m.spec_translate(d), d.spec_neg(), s).spec_eq(
            one_minus(spec_entry_time(m, d, s)),
        ),
{
    let mt = m.spec_translate(d);
    let nd = d.spec_neg();
    let x1 = spec_axis_exit(m.min.x as int, m.max.x as int, s.min.x as int, s.max.x as int,
        d.x as int);
    let x2 = spec_axis_exit(m.min.y as int, m.max.y as int, s.min.y as int, s.max.y as int,
        d.y as int);
    let x3 = spec_axis_exit(m.min.z as int, m.max.z as int, s.min.z as int, s.max.z as int,
        d.z as int);
    let e1 = spec_axis_entry(m.min.x as int, m.max.x as int, s.min.x as int, s.max.x as int,
        d.x as int);
    let e2 = spec_axis_entry(m.min.y as int, m.max.y as int, s.min.y as int, s.max.y as int,
        d.y as int);
    let e3 = spec_axis_entry(m.min.z as int, m.max.z as int, s.min.z as int, s.max.z as int,
        d.z as int);
    lemma_axis_time_reversal(m.min.x as int, m.max.x as int, s.min.x as int, s.max.x as int,
        d.x as int);
    lemma_axis_time_reversal(m.min.y as int, m.max.y as int, s.min.y as int, s.max.y as int,
        d.y as int);
    lemma_axis_time_reversal(m.min.z as int, m.max.z as int, s.min.z as int, s.max.z as int,
        d.z as int);
    lemma_axis_time_wf(m.min.x as int, m.max.x as int, s.min.x as int, s.max.x as int,
        d.x as int);
    lemma_axis_time_wf(m.min.y as int, m.max.y as int, s.min.y as int, s.max.y as int,
        d.y as int);
    lemma_axis_time_wf(m.min.z as int, m.max.z as int, s.min.z as int, s.max.z as int,
        d.z as int);
    assert(spec_axis_entry(mt.min.x as int, mt.max.x as int, s.min.x as int, s.max.x as int,
        nd.x as int) == one_minus(x1));
    assert(spec_axis_entry(mt.min.y as int, mt.max.y as int, s.min.y as int, s.max.y as int,
        nd.y as int) == one_minus(x2));
    assert(spec_axis_entry(mt.min.z as int, mt.max.z as int, s.min.z as int, s.max.z as int,
        nd.z as int) == one_minus(x3));
    assert(spec_axis_exit(mt.min.x as int, mt.max.x as int, s.min.x as int, s.max.x as int,
        nd.x as int) == one_minus(e1));
    assert(spec_axis_exit(mt.min.y as int, mt.max.y as int, s.min.y as int, s.max.y as int,
        nd.y as int) == one_minus(e2));
    assert(spec_axis_exit(mt.min.z as int, mt.max.z as int, s.min.z as int, s.max.z as int,
        nd.z as int) == one_minus(e3));
    lemma_reversed_chain(x1, x2, x3);
    lemma_reversed_chain_min(e1, e2, e3);
}

/// `max(1-x1, 1-x2, 1-x3)` equals `1 - min(x1, x2, x3)` as a time value.
proof fn lemma_reversed_chain(x1: AxisTime, x2: AxisTime, x3: AxisTime)
    requires
        x1.wf(),
        x2.wf(),
        x3.wf(),
        one_minus(x1).wf(),
        one_minus(x2).wf(),
        one_minus(x3).wf(),
    ensures
        one_minus(x1).spec_max(one_minus(x2)).spec_max(one_minus(x3)).spec_eq(
            one_minus(x1.spec_min(x2).spec_min(x3)),
        ),
{
    let m2 = x1.spec_min(x2);
    let mn = m2.spec_min(x3);
    let w2 = one_minus(x1).spec_max(one_minus(x2));
    let mx = w2.spec_max(one_minus(x3));
    lemma_min2(x1, x2);
    lemma_min2(m2, x3);
    crate::swept::lemma_time_le_trans(mn, m2, x1);
    crate::swept::lemma_time_le_trans(mn, m2, x2);
    lemma_max2(one_minus(x1), one_minus(x2));
    lemma_max2(w2, one_minus(x3));
    crate::swept::lemma_time_le_trans(one_minus(x1), w2, mx);
    crate::swept::lemma_time_le_trans(one_minus(x2), w2, mx);
    // `1 - mn` is one of the three mirrors, so it is below the maximum.
    assert(mn == x1 || mn == x2 || mn == x3);
    assert(one_minus(mn).spec_le(mx));
    // The maximum is some `1 - xj` with `mn <= xj`, so it is below `1 - mn`.
    lemma_one_minus_le_swap(x1, mn);
    lemma_one_minus_le_swap(x2, mn);
    lemma_one_minus_le_swap(x3, mn);
    assert(mx == one_minus(x1) || mx == one_minus(x2) || mx == one_minus(x3));
    assert(mx.spec_le(one_minus(mn)));
}

/// `min(1-e1, 1-e2, 1-e3)` equals `1 - max(e1, e2, e3)` as a time value.
proof fn lemma_reversed_chain_min(e1: AxisTime, e2: AxisTime, e3: AxisTime)
    requires
        e1.wf(),
        e2.wf(),
        e3.wf(),
        one_minus(e1).wf(),
        one_minus(e2).wf(),
        one_minus(e3).wf(),
    ensures
        one_minus(e1).spec_min(one_minus(e2)).spec_min(one_minus(e3)).spec_eq(
            one_minus(e1.spec_max(e2).spec_max(e3)),
        ),
{
    let m2 = e1.spec_max(e2);
    let mx = m2.spec_max(e3);
    let w2 = one_minus(e1).spec_min(one_minus(e2));
    let mn = w2.spec_min(one_minus(e3));
    lemma_max2(e1, e2);
    lemma_max2(m2, e3);
    crate::swept::lemma_time_le_trans(e1, m2, mx);
    crate::swept::lemma_time_le_trans(e2, m2, mx);
    lemma_min2(one_minus(e1), one_minus(e2));
    lemma_min2(w2, one_minus(e3));
    crate::swept::lemma_time_le_trans(mn, w2, one_minus(e1));
    crate::swept::lemma_time_le_trans(mn, w2, one_minus(e2));
    assert(mx == e1 || mx == e2 || mx == e3);
    assert(mn.spec_le(one_minus(mx)));
    lemma_one_minus_le_swap(mx, e1);
    lemma_one_minus_le_swap(mx, e2);
    lemma_one_minus_le_swap(mx, e3);
    assert(mn == one_minus(e1) || mn == one_minus(e2) || mn == one_minus(e3));
    assert(one_minus(mx).spec_le(mn));
}

/// A motionless box collides with nothing: with zero displacement every
/// axis is either separated (no collision) or entered since forever (all
/// entries negative, no collision).
proof fn lemma_swept_zero_disp(m: Aabb, st: Aabb)
    ensures
        spec_swept(m, Vec3Fix { x: 0i64, y: 0i64, z: 0i64 }, st) is None,
{
}

proof fn lemma_shape_collisions_zero_disp(hb: Aabb, c: crate::broadphase::CellPos, shapes: Seq<Aabb>)
    ensures
        crate::step::spec_shape_collisions(hb, Vec3Fix { x: 0i64, y: 0i64, z: 0i64 }, c, shapes)
            == Seq::<(crate::broadphase::CellPos, crate::swept::CollisionResult)>::empty(),
    decreases shapes.len(),
{
    if shapes.len() > 0 {
        lemma_shape_collisions_zero_disp(hb, c, shapes.drop_last());
        lemma_swept_zero_disp(hb, shapes.last().spec_translate(crate::step::spec_cell_origin(c)));
    }
}

proof fn lemma_cells_collisions_zero_disp(hb: Aabb, t: Terrain, cells: Seq<crate::broadphase::CellPos>)
    ensures
        crate::step::spec_cells_collisions(hb, Vec3Fix { x: 0i64, y: 0i64, z: 0i64 }, t, cells)
            == Seq::<(crate::broadphase::CellPos, crate::swept::CollisionResult)>::empty(),
    decreases cells.len(),
{
    if cells.len() > 0 {
        lemma_cells_collisions_zero_disp(hb, t, cells.drop_last());
        lemma_shape_collisions_zero_disp(hb, cells.last(), t.spec_solid_shapes(cells.last()));
        assert(crate::step::spec_cells_collisions(hb, Vec3Fix { x: 0i64, y: 0i64, z: 0i64 },
            t, cells) =~= Seq::<(crate::broadphase::CellPos,
            crate::swept::CollisionResult)>::empty());
    }
}

/// A body with zero velocity and zero (or no) acceleration never generates
/// a terrain collision event and never changes position: one tick returns
/// the body exactly as it was.
pub proof fn lemma_stationary_body_tick(
    b: BodyState,
    t: Terrain,
    reg: Map<u64, Bvh>,
    dt: int,
)
    requires
        b.wf(),
        b.velocity == (Vec3Fix { x: 0i64, y: 0i64, z: 0i64 }),
        b.acceleration is None || b.acceleration == Some(Vec3Fix { x: 0i64, y: 0i64, z: 0i64 }),
        0 < dt <= SCALE,
    ensures
        spec_step_body(b, t, reg, dt).0 == b,
        spec_step_body(b, t, reg, dt).1 == Seq::<
            crate::step::EntityBlockCollisionEvent,
        >::empty(),
{
    let zero = Vec3Fix { x: 0i64, y: 0i64, z: 0i64 };
    // Drag, acceleration and the speed limit leave a zero velocity at zero.
    assert(crate::num::spec_fmul(0, dt) == 0) by {
        assert(crate::num::trunc_div(0 * dt, SCALE as int) == 0);
    }
    let vd = crate::step::spec_after_drag(b.velocity, b.drag, dt);
    assert(vd == zero) by {
        match b.drag {
            Some(d) => {
                assert(crate::num::spec_fmul(0, SCALE - crate::num::spec_fmul(d.x as int, dt))
                    == 0) by {
                    assert(0 * (SCALE - crate::num::spec_fmul(d.x as int, dt)) == 0);
                    assert(crate::num::trunc_div(0, SCALE as int) == 0);
                }
                assert(crate::num::spec_fmul(0, SCALE - crate::num::spec_fmul(d.y as int, dt))
                    == 0) by {
                    assert(0 * (SCALE - crate::num::spec_fmul(d.y as int, dt)) == 0);
                    assert(crate::num::trunc_div(0, SCALE as int) == 0);
                }
                assert(crate::num::spec_fmul(0, SCALE - crate::num::spec_fmul(d.z as int, dt))
                    == 0) by {
                    assert(0 * (SCALE - crate::num::spec_fmul(d.z as int, dt)) == 0);
                    assert(crate::num::trunc_div(0, SCALE as int) == 0);
                }
            },
            None => {},
        }
    }
    let va = crate::step::spec_after_accel(vd, b.acceleration, dt);
    assert(va == zero);
    let vl = crate::step::spec_after_limit(va, b.speed_limit);
    assert(vl == zero) by {
        match b.speed_limit {
            Some(l) => {
                assert(va.spec_norm2() == 0);
                crate::vec3::lemma_square_nonneg(l as int);
            },
            None => {},
        }
    }
    assert(crate::step::spec_integrated_velocity(b, dt) == zero);
    let b1 = BodyState { velocity: zero, ..b };
    assert(b1 == b);
    // With zero displacement, every resolution pass finds nothing.
    if b.block_collision is Some {
        let hb = crate::step::spec_block_box(b1);
        assert(crate::step::spec_scaled(zero, dt) == zero);
        lemma_cells_collisions_zero_disp(hb, t, crate::step::spec_candidate_cells(hb,
            b1.position, zero));
        let pass = crate::step::spec_resolve_pass(b1, hb, t, dt);
        assert(pass.2);
        assert(crate::step::spec_resolve_loop(b1, hb, t, dt, 3)
            == (b1, Seq::<crate::step::EntityBlockCollisionEvent>::empty()));
    }
    // The remaining advance of a motionless body is nothing.
    assert(crate::step::spec_advanced(b1, dt) == b1) by {
        assert(crate::num::spec_fmul(0, dt) == 0);
        assert(crate::step::spec_advanced(b1, dt).position =~= b1.position);
    }
}

/// Iterated ticks of one body against fixed terrain and indices.
pub open spec fn spec_iterate(
    b: BodyState,
    t: Terrain,
    reg: Map<u64, Bvh>,
    dt: int,
    n: nat,
) -> BodyState
    decreases n,
{
    if n == 0 {
        b
    } else {
        spec_iterate(spec_step_body(b, t, reg, dt).0, t, reg, dt, (n - 1) as nat)
    }
}

/// A body with zero velocity and zero acceleration stays exactly where it
/// is across any number of ticks.
pub proof fn lemma_stationary_body_forever(
    b: BodyState,
    t: Terrain,
    reg: Map<u64, Bvh>,
    dt: int,
    n: nat,
)
    requires
        b.wf(),
        b.velocity == (Vec3Fix { x: 0i64, y: 0i64, z: 0i64 }),
        b.acceleration is None || b.acceleration == Some(Vec3Fix { x: 0i64, y: 0i64, z: 0i64 }),
        0 < dt <= SCALE,
    ensures
        spec_iterate(b, t, reg, dt, n) == b,
    decreases n,
{
    if n > 0 {
        lemma_stationary_body_tick(b, t, reg, dt);
        lemma_stationary_body_forever(b, t, reg, dt, (n - 1) as nat);
    }
}

/// No two entries share a payload.
pub open spec fn distinct_payloads(s: Seq<BvhEntry>) -> bool {
    forall|i: int, j: int|
        0 <= i < j < s.len() ==> (#[trigger] s[i]).payload != (#[trigger] s[j]).payload
}

/// The events a detecting body emits carry one event per queried entry of
/// another body: counting events toward `pid` equals counting queried
/// entries with payload `pid`.
proof fn lemma_entity_events_count(id: u64, q: Seq<BvhEntry>, pid: u64)
    requires
        pid != id,
    ensures
        crate::step::spec_entity_events(id, q).filter(
            |ev: EntityEntityCollisionEvent| ev.entity2 == pid,
        ).len() == q.filter(|e: BvhEntry| e.payload == pid).len(),
    decreases q.len(),
{
    reveal(Seq::filter);
    let evp = |ev: EntityEntityCollisionEvent| ev.entity2 == pid;
    let enp = |e: BvhEntry| e.payload == pid;
    if q.len() > 0 {
        let dl = q.drop_last();
        lemma_entity_events_count(id, dl, pid);
        let evs = crate::step::spec_entity_events(id, q);
        let evs_dl = crate::step::spec_entity_events(id, dl);
        if q.last().payload != id {
            assert(evs == evs_dl.push(
                EntityEntityCollisionEvent { entity1: id, entity2: q.last().payload },
            ));
            assert(evs.drop_last() =~= evs_dl);
        } else {
            assert(evs == evs_dl);
            assert(!enp(q.last()));
        }
    }
}

/// In a payload-distinct collection, at most one entry carries `pid`.
proof fn lemma_distinct_payload_filter(s: Seq<BvhEntry>, pid: u64)
    requires
        distinct_payloads(s),
    ensures
        s.filter(|e: BvhEntry| e.payload == pid).len() <= 1,
    decreases s.len(),
{
    reveal(Seq::filter);
    let enp = |e: BvhEntry| e.payload == pid;
    if s.len() > 0 {
        let dl = s.drop_last();
        assert(distinct_payloads(dl)) by {
            assert(forall|i: int, j: int|
                0 <= i < j < dl.len() ==> dl[i] == s[i] && dl[j] == s[j]);
        }
        lemma_distinct_payload_filter(dl, pid);
        if enp(s.last()) {
            // No earlier entry can carry the same payload.
            if dl.filter(enp).len() > 0 {
                lemma_filter_subset(dl, enp);
                assert(dl.contains(dl.filter(enp)[0]));
                let j = choose|j: int| 0 <= j < dl.len() && dl[j] == dl.filter(enp)[0];
                assert(s[j].payload == s[s.len() - 1].payload);
                assert(false);
            }
        }
    }
}

/// Payload distinctness survives filtering.
proof fn lemma_filter_keeps_distinct(s: Seq<BvhEntry>, pred: spec_fn(BvhEntry) -> bool, pid: u64)
    requires
        distinct_payloads(s),
    ensures
        s.filter(pred).filter(|e: BvhEntry| e.payload == pid).len() <= s.filter(
            |e: BvhEntry| e.payload == pid,
        ).len(),
    decreases s.len(),
{
    reveal(Seq::filter);
    let enp = |e: BvhEntry| e.payload == pid;
    if s.len() > 0 {
        let dl = s.drop_last();
        assert(distinct_payloads(dl)) by {
            assert(forall|i: int, j: int|
                0 <= i < j < dl.len() ==> dl[i] == s[i] && dl[j] == s[j]);
        }
        lemma_filter_keeps_distinct(dl, pred, pid);
        if pred(s.last()) {
            assert(s.filter(pred) == dl.filter(pred).push(s.last()));
            assert(s.filter(pred).drop_last() =~= dl.filter(pred));
        } else {
            assert(s.filter(pred) == dl.filter(pred));
        }
    }
}

/// Two bodies with overlapping boxes registered in the same index produce
/// exactly one body-vs-body event from the detecting side per tick,
/// whatever order the entries were registered in: the detecting body's
/// event stream names the other body exactly as often as the index holds an
/// overlapping entry for it, and that is at most once.
pub proof fn lemma_one_event_per_pair(
    id: u64,
    entries: Seq<BvhEntry>,
    target: Aabb,
    pid: u64,
)
    requires
        distinct_payloads(entries),
        pid != id,
    ensures
        ({
            let evs = crate::step::spec_entity_events(id, entries.filter(
                overlap_pred(target),
            ));
            let hits = entries.filter(overlap_pred(target)).filter(
                |e: BvhEntry| e.payload == pid,
            );
            evs.filter(|ev: EntityEntityCollisionEvent| ev.entity2 == pid).len()
                == hits.len() && hits.len() <= 1
        }),
{
    lemma_entity_events_count(id, entries.filter(overlap_pred(target)), pid);
    lemma_filter_keeps_distinct(entries, overlap_pred(target), pid);
    lemma_distinct_payload_filter(entries, pid);
}

} // verus!
