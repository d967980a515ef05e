use voxel_physics::aabb::Aabb;
use voxel_physics::bvh::{Bvh, BvhEntry};
use voxel_physics::registry::{BvhResource, ENTITY_BLOCK_BVH_IDX, ENTITY_ENTITY_BVH_IDX};
use voxel_physics::vec3::Vec3Fix;

fn v(x: i64, y: i64, z: i64) -> Vec3Fix {
    Vec3Fix { x, y, z }
}

fn cube(min: (i64, i64, i64), max: (i64, i64, i64)) -> Aabb {
    Aabb { min: v(min.0, min.1, min.2), max: v(max.0, max.1, max.2) }
}

fn entry(payload: u64, min: (i64, i64, i64), max: (i64, i64, i64)) -> BvhEntry {
    BvhEntry { payload, aabb: cube(min, max) }
}

fn sample_entries() -> Vec<BvhEntry> {
    vec![
        entry(1, (0, 0, 0), (1000, 1000, 1000)),
        entry(2, (5000, 0, 0), (6000, 1000, 1000)),
        entry(3, (500, 500, 500), (1500, 1500, 1500)),
        entry(4, (-3000, -3000, -3000), (-2000, -2000, -2000)),
        entry(5, (10_000, 10_000, 10_000), (11_000, 11_000, 11_000)),
        entry(6, (200, 200, 200), (400, 400, 400)),
        entry(7, (-500, 0, 0), (250, 900, 900)),
        entry(8, (7000, 7000, 7000), (8000, 8000, 8000)),
    ]
}

fn brute_force_range(entries: &[BvhEntry], q: &Aabb) -> Vec<u64> {
    let mut out: Vec<u64> = entries
        .iter()
        .filter(|e| q.overlaps(&e.aabb))
        .map(|e| e.payload)
        .collect();
    out.sort();
    out
}

fn brute_force_nearest(entries: &[BvhEntry], p: Vec3Fix) -> Option<i128> {
    entries.iter().map(|e| e.aabb.dist2(p)).min()
}

/// Range queries on the built index return exactly the brute-force scan's
/// payload set, for several query boxes.
#[test]
fn range_query_matches_linear_scan() {
    let entries = sample_entries();
    let mut bvh = Bvh::new();
    bvh.build(entries.clone());
    let queries = [
        cube((-100, -100, -100), (600, 600, 600)),
        cube((0, 0, 0), (20_000, 20_000, 20_000)),
        cube((5500, 100, 100), (5600, 200, 200)),
        cube((-2500, -2500, -2500), (-2400, -2400, -2400)),
        cube((100_000, 100_000, 100_000), (101_000, 101_000, 101_000)),
    ];
    for q in queries.iter() {
        let mut got: Vec<u64> = bvh.get_in_range(q).iter().map(|e| e.payload).collect();
        got.sort();
        assert_eq!(got, brute_force_range(&entries, q));
    }
}

/// A degenerate (zero-extent or inverted) query box returns the empty set.
#[test]
fn degenerate_query_box_returns_empty() {
    let entries = sample_entries();
    let mut bvh = Bvh::new();
    bvh.build(entries);
    let zero_extent = cube((500, 500, 500), (500, 900, 900));
    assert!(bvh.get_in_range(&zero_extent).is_empty());
    let inverted = cube((1000, 1000, 1000), (0, 0, 0));
    assert!(bvh.get_in_range(&inverted).is_empty());
}

/// The nearest query reports exactly the brute-force minimum distance.
#[test]
fn nearest_query_matches_linear_scan() {
    let entries = sample_entries();
    let mut bvh = Bvh::new();
    bvh.build(entries.clone());
    let points = [
        v(0, 0, 0),
        v(4000, 500, 500),
        v(-10_000, -10_000, -10_000),
        v(9000, 9000, 9000),
        v(300, 300, 300),
    ];
    for p in points.iter() {
        let (_, d2) = bvh.get_closest(*p).expect("index is nonempty");
        assert_eq!(Some(d2), brute_force_nearest(&entries, *p));
    }
}

/// A tree small enough for a single leaf takes the direct scan path; both
/// paths agree with the brute-force minimum.
#[test]
fn nearest_query_single_leaf_agrees() {
    let small = vec![
        entry(1, (0, 0, 0), (1000, 1000, 1000)),
        entry(2, (5000, 0, 0), (6000, 1000, 1000)),
        entry(3, (9000, 0, 0), (9500, 1000, 1000)),
    ];
    let mut bvh = Bvh::new();
    bvh.build(small.clone());
    let p = v(4500, 500, 500);
    let (e, d2) = bvh.get_closest(p).unwrap();
    assert_eq!(Some(d2), brute_force_nearest(&small, p));
    assert_eq!(e.payload, 2);
    assert_eq!(d2, 500 * 500);
}

/// Ties in distance resolve deterministically: two runs agree.
#[test]
fn nearest_query_tie_is_deterministic() {
    let tied = vec![
        entry(1, (2000, 0, 0), (3000, 1000, 1000)),
        entry(2, (-3000, 0, 0), (-2000, 1000, 1000)),
        entry(3, (8000, 8000, 8000), (9000, 9000, 9000)),
        entry(4, (2000, 2000, 0), (3000, 3000, 1000)),
        entry(5, (-3000, 2000, 0), (-2000, 3000, 1000)),
    ];
    let mut bvh = Bvh::new();
    bvh.build(tied.clone());
    let p = v(0, 500, 500);
    let first = bvh.get_closest(p).unwrap();
    let second = bvh.get_closest(p).unwrap();
    assert_eq!(first.0.payload, second.0.payload);
    assert_eq!(first.1, second.1);
    assert_eq!(Some(first.1), brute_force_nearest(&tied, p));
}

/// An empty index answers every query as empty or `None`, and clearing or
/// rebuilding with no entries restores that state.
#[test]
fn empty_index_answers_empty() {
    let mut bvh = Bvh::new();
    assert!(bvh.get_in_range(&cube((-1000, -1000, -1000), (1000, 1000, 1000))).is_empty());
    assert!(bvh.get_closest(v(0, 0, 0)).is_none());

    bvh.build(sample_entries());
    assert!(bvh.get_closest(v(0, 0, 0)).is_some());
    bvh.build(Vec::new());
    assert!(bvh.get_in_range(&cube((-1000, -1000, -1000), (1000, 1000, 1000))).is_empty());
    assert!(bvh.get_closest(v(0, 0, 0)).is_none());

    bvh.build(sample_entries());
    bvh.clear();
    assert!(bvh.get_in_range(&cube((-1000, -1000, -1000), (1000, 1000, 1000))).is_empty());
    assert!(bvh.get_closest(v(0, 0, 0)).is_none());
}

/// Rebuilding a registered index with an empty entry list makes both query
/// kinds answer empty until the next nonempty rebuild.
#[test]
fn registry_rebuild_empty_then_nonempty() {
    let mut reg = BvhResource::with_bvhs(2);
    let q = cube((-100_000, -100_000, -100_000), (100_000, 100_000, 100_000));

    reg.rebuild(ENTITY_ENTITY_BVH_IDX, sample_entries()).unwrap();
    assert!(!reg.get_in_range(ENTITY_ENTITY_BVH_IDX, &q).unwrap().is_empty());

    reg.rebuild(ENTITY_ENTITY_BVH_IDX, Vec::new()).unwrap();
    assert!(reg.get_in_range(ENTITY_ENTITY_BVH_IDX, &q).unwrap().is_empty());
    assert!(reg.get_closest(ENTITY_ENTITY_BVH_IDX, v(0, 0, 0)).unwrap().is_none());

    reg.rebuild(ENTITY_ENTITY_BVH_IDX, sample_entries()).unwrap();
    assert!(!reg.get_in_range(ENTITY_ENTITY_BVH_IDX, &q).unwrap().is_empty());
}

/// Looking up an index id that was never registered is a configuration
/// error for every registry operation.
#[test]
fn registry_unknown_index_fails() {
    let mut reg = BvhResource::with_bvhs(2);
    let q = cube((0, 0, 0), (1000, 1000, 1000));
    assert!(reg.get_in_range(77, &q).is_err());
    assert!(reg.get_closest(77, v(0, 0, 0)).is_err());
    assert!(reg.rebuild(77, Vec::new()).is_err());
    assert!(reg.get_in_range(ENTITY_BLOCK_BVH_IDX, &q).is_ok());
}

/// Duplicate boxes are all kept: the index holds a multiset, not a set.
#[test]
fn duplicate_boxes_are_kept() {
    let twice = vec![
        entry(1, (0, 0, 0), (1000, 1000, 1000)),
        entry(2, (0, 0, 0), (1000, 1000, 1000)),
        entry(3, (0, 0, 0), (1000, 1000, 1000)),
        entry(4, (0, 0, 0), (1000, 1000, 1000)),
        entry(5, (0, 0, 0), (1000, 1000, 1000)),
        entry(6, (9000, 9000, 9000), (9100, 9100, 9100)),
    ];
    let mut bvh = Bvh::new();
    bvh.build(twice);
    let q = cube((-10, -10, -10), (500, 500, 500));
    let mut got: Vec<u64> = bvh.get_in_range(&q).iter().map(|e| e.payload).collect();
    got.sort();
    assert_eq!(got, vec![1, 2, 3, 4, 5]);
}
