use voxel_physics::aabb::Aabb;
use voxel_physics::broadphase::{Block, CellPos, Terrain, TerrainCell};
use voxel_physics::num::isqrt_u128;
use voxel_physics::vec3::Vec3Fix;

fn v(x: i64, y: i64, z: i64) -> Vec3Fix {
    Vec3Fix { x, y, z }
}

fn cube(min: (i64, i64, i64), max: (i64, i64, i64)) -> Aabb {
    Aabb { min: v(min.0, min.1, min.2), max: v(max.0, max.1, max.2) }
}

/// Width, translation and volume are exact.
#[test]
fn aabb_derived_operations_are_exact() {
    let b = cube((-500, 0, 250), (1500, 3000, 1250));
    assert_eq!(b.width_x(), 2000);
    assert_eq!(b.width_y(), 3000);
    assert_eq!(b.width_z(), 1000);
    // Volume in cubic fixed-point units: 2000 * 3000 * 1000.
    assert_eq!(b.volume(), 6_000_000_000);
    let moved = b.translate(v(100, -200, 300));
    assert_eq!(moved.min, v(-400, -200, 550));
    assert_eq!(moved.max, v(1600, 2800, 1550));
}

/// Overlap is strict: touching boxes do not overlap, and degenerate boxes
/// overlap nothing.
#[test]
fn aabb_overlap_semantics() {
    let a = cube((0, 0, 0), (1000, 1000, 1000));
    let b = cube((500, 500, 500), (1500, 1500, 1500));
    assert!(a.overlaps(&b));
    assert!(b.overlaps(&a));
    let touching = cube((1000, 0, 0), (2000, 1000, 1000));
    assert!(!a.overlaps(&touching));
    let degenerate = cube((500, 500, 500), (500, 900, 900));
    assert!(!a.overlaps(&degenerate));
    assert!(!degenerate.overlaps(&a));
}

/// Squared distance from a box to a point: zero inside, exact outside.
#[test]
fn aabb_dist2_is_exact() {
    let b = cube((0, 0, 0), (1000, 1000, 1000));
    assert_eq!(b.dist2(v(500, 500, 500)), 0);
    assert_eq!(b.dist2(v(1300, 500, 500)), 300 * 300);
    assert_eq!(b.dist2(v(-300, -400, 500)), 300 * 300 + 400 * 400);
    assert_eq!(b.dist2(v(1100, 1200, 1300)), 100 * 100 + 200 * 200 + 300 * 300);
}

/// When a cell position occurs twice, the first entry wins.
#[test]
fn terrain_first_match_wins() {
    let pos = CellPos { x: 1, y: 2, z: 3 };
    let terrain = Terrain {
        cells: vec![
            TerrainCell { pos, block: Block { solid: true, shapes: Vec::new() } },
            TerrainCell { pos, block: Block { solid: false, shapes: Vec::new() } },
        ],
    };
    assert!(terrain.block_at(pos).unwrap().solid);
    assert!(terrain.block_at(CellPos { x: 0, y: 0, z: 0 }).is_none());
}

/// The integer square root rounds down exactly.
#[test]
fn integer_square_root_is_exact() {
    assert_eq!(isqrt_u128(0), 0);
    assert_eq!(isqrt_u128(1), 1);
    assert_eq!(isqrt_u128(3), 1);
    assert_eq!(isqrt_u128(4), 2);
    assert_eq!(isqrt_u128(490_000), 700);
    assert_eq!(isqrt_u128(490_001), 700);
    assert_eq!(isqrt_u128(u128::from(u64::MAX)) , 4_294_967_295);
}
