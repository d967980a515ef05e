use voxel_physics::aabb::Aabb;
use voxel_physics::broadphase::{
    aabb_full_block_intersections, is_on_block, Block, CellPos, Terrain, TerrainCell,
};
use voxel_physics::registry::{BvhResource, ENTITY_BLOCK_BVH_IDX, ENTITY_ENTITY_BVH_IDX};
use voxel_physics::step::{
    rebuild_indices, step_all, step_body, BlockCollisionConfig, BodyState, Direction,
    EntityCollisionConfig, StopOnBlockCollision,
};
use voxel_physics::swept::swept_aabb_collide;
use voxel_physics::vec3::Vec3Fix;

fn v(x: i64, y: i64, z: i64) -> Vec3Fix {
    Vec3Fix { x, y, z }
}

fn cube(min: (i64, i64, i64), max: (i64, i64, i64)) -> Aabb {
    Aabb { min: v(min.0, min.1, min.2), max: v(max.0, max.1, max.2) }
}

fn full_block() -> Block {
    Block { solid: true, shapes: vec![cube((0, 0, 0), (1000, 1000, 1000))] }
}

fn solid_cell(x: i64, y: i64, z: i64) -> TerrainCell {
    TerrainCell { pos: CellPos { x, y, z }, block: full_block() }
}

fn plain_body(id: u64, position: Vec3Fix) -> BodyState {
    BodyState {
        id,
        position,
        velocity: v(0, 0, 0),
        acceleration: None,
        drag: None,
        speed_limit: None,
        hitbox: cube((-500, -500, -500), (500, 500, 500)),
        stop_on_block_collision: None,
        entity_collision: None,
        block_collision: None,
    }
}

/// Swept collision against an approaching box reports the exact entry
/// fraction and the face struck.
#[test]
fn swept_collide_exact_entry_time() {
    // A unit box 0.22 blocks above a floor cell, moving down 0.96 this tick.
    let moving = cube((0, 64_220, 0), (1000, 65_220, 1000));
    let d = v(0, -960, 0);
    let floor = cube((0, 63_000, 0), (1000, 64_000, 1000));
    let hit = swept_aabb_collide(&moving, &d, &floor).expect("must collide");
    // entry = (64.000 - 64.220) / -0.960 = 220 / 960 of the tick.
    assert_eq!(hit.entry_time.num * 960, 220 * hit.entry_time.den);
    assert_eq!(hit.face_direction.x, None);
    assert_eq!(hit.face_direction.y, Some(true));
    assert_eq!(hit.face_direction.z, None);
}

/// No collision is reported beyond this tick's displacement.
#[test]
fn swept_collide_beyond_tick_is_none() {
    let moving = cube((0, 70_000, 0), (1000, 71_000, 1000));
    let d = v(0, -960, 0);
    let floor = cube((0, 63_000, 0), (1000, 64_000, 1000));
    assert!(swept_aabb_collide(&moving, &d, &floor).is_none());
}

/// A box already past contact (receding) reports no collision.
#[test]
fn swept_collide_receding_is_none() {
    let moving = cube((0, 64_100, 0), (1000, 65_100, 1000));
    let d = v(0, 960, 0);
    let floor = cube((0, 63_000, 0), (1000, 64_000, 1000));
    assert!(swept_aabb_collide(&moving, &d, &floor).is_none());
}

/// A motionless box never collides, separated or overlapping.
#[test]
fn swept_collide_zero_velocity_is_none() {
    let d = v(0, 0, 0);
    let floor = cube((0, 63_000, 0), (1000, 64_000, 1000));
    let separated = cube((5000, 70_000, 0), (6000, 71_000, 1000));
    assert!(swept_aabb_collide(&separated, &d, &floor).is_none());
    let overlapping = cube((0, 63_500, 0), (1000, 64_500, 1000));
    assert!(swept_aabb_collide(&overlapping, &d, &floor).is_none());
}

/// Time-reversal sanity: a box that enters at 0 and exits at 3/4, moved to
/// the end of its displacement and sent back, enters at 1 - 3/4 = 1/4 and
/// exits at 1 - 0 = 1.
#[test]
fn swept_collide_time_reversal_round_trip() {
    let m = cube((0, 0, 0), (1000, 1000, 1000));
    let d = v(4000, 0, 0);
    let s = cube((1000, 0, 0), (3000, 1000, 1000));
    let forward = swept_aabb_collide(&m, &d, &s).expect("must collide");
    assert_eq!(forward.entry_time.num, 0);
    assert_eq!(forward.face_direction.x, Some(false));

    let m_back = cube((4000, 0, 0), (5000, 1000, 1000));
    let d_back = v(-4000, 0, 0);
    let backward = swept_aabb_collide(&m_back, &d_back, &s).expect("must collide");
    // Entry of the reversed run is a quarter of the tick: 1 - exit(3/4).
    assert_eq!(backward.entry_time.num * 4, backward.entry_time.den);
    assert_eq!(backward.face_direction.x, Some(true));
}

/// The face masks and stop predicates.
#[test]
fn stop_on_block_collision_masks() {
    assert_eq!(StopOnBlockCollision::ground().0, 2);
    assert_eq!(StopOnBlockCollision::all().0, u8::MAX);
    let updown = StopOnBlockCollision::new(vec![Direction::Up, Direction::Down]);
    assert_eq!(updown.0, 3);
    assert!(updown.should_stop(Direction::Up));
    assert!(updown.should_stop(Direction::Down));
    assert!(!updown.should_stop(Direction::East));
    assert!(updown.should_stop_bitmap(2));
    assert!(!updown.should_stop_bitmap(32));
    assert_eq!(StopOnBlockCollision::new(Vec::new()).0, 0);
}

/// The cells a box intersects, endpoints rounded outward.
#[test]
fn full_block_intersections_cover_the_box() {
    let inside_one = cube((0, 0, 0), (1000, 1000, 1000));
    let cells = aabb_full_block_intersections(&inside_one);
    assert_eq!(cells, vec![CellPos { x: 0, y: 0, z: 0 }]);

    let straddling = cube((-500, -500, -500), (500, 500, 500));
    let cells = aabb_full_block_intersections(&straddling);
    assert_eq!(cells.len(), 8);
    assert!(cells.contains(&CellPos { x: -1, y: -1, z: -1 }));
    assert!(cells.contains(&CellPos { x: 0, y: 0, z: 0 }));
}

/// A box resting on a solid cell is on a block; a floating one is not.
#[test]
fn is_on_block_detects_support() {
    let terrain = Terrain { cells: vec![solid_cell(0, 63, 0)] };
    let resting = cube((0, 64_000, 0), (1000, 65_000, 1000));
    assert!(is_on_block(&resting, &terrain));
    let floating = cube((0, 64_100, 0), (1000, 65_100, 1000));
    assert!(!is_on_block(&floating, &terrain));
    let elsewhere = cube((5000, 64_000, 0), (6000, 65_000, 1000));
    assert!(!is_on_block(&elsewhere, &terrain));
}

/// A body with zero velocity and zero acceleration never moves and never
/// strikes terrain, over many ticks.
#[test]
fn stationary_body_stays_put() {
    let terrain = Terrain { cells: vec![solid_cell(0, 63, 0)] };
    let reg = BvhResource::with_bvhs(2);
    let mut body = plain_body(9, v(500, 64_500, 500));
    body.acceleration = Some(v(0, 0, 0));
    body.drag = Some(v(100, 100, 100));
    body.block_collision = Some(BlockCollisionConfig { block_collider_hitbox: None });
    for _ in 0..10 {
        let (block_events, entity_events) = step_body(&mut body, &terrain, &reg, 50).unwrap();
        assert!(block_events.is_empty());
        assert!(entity_events.is_empty());
        assert_eq!(body.position, v(500, 64_500, 500));
        assert_eq!(body.velocity, v(0, 0, 0));
    }
}

/// A body falling under constant downward acceleration onto a flat solid
/// floor comes to rest within one tick of first contact, at the floor's
/// top surface plus its half height, within the epsilon correction.
///
/// Literal input: half height 0.5, floor top at y = 64, acceleration
/// (0, -32, 0), dt = 0.05 s, start at y = 70 (all in thousandths).
#[test]
fn falling_body_comes_to_rest_on_floor() {
    let terrain = Terrain { cells: vec![solid_cell(0, 63, 0)] };
    let reg = BvhResource::with_bvhs(2);
    let mut body = plain_body(7, v(500, 70_000, 500));
    body.acceleration = Some(v(0, -32_000, 0));
    body.block_collision = Some(BlockCollisionConfig { block_collider_hitbox: None });

    let mut first_contact_tick = None;
    for tick in 1..=12 {
        let (block_events, _) = step_body(&mut body, &terrain, &reg, 50).unwrap();
        if !block_events.is_empty() {
            first_contact_tick = Some(tick);
            assert_eq!(block_events.len(), 1);
            assert_eq!(block_events[0].entity, 7);
            assert_eq!(block_events[0].block_pos, CellPos { x: 0, y: 63, z: 0 });
            // Struck the top (up) face.
            assert_eq!(block_events[0].block_face_bitmap, 2);
            break;
        }
        // Until contact the body keeps accelerating downward.
        assert_eq!(body.velocity.y, -1600 * tick);
    }
    // Contact happens on the tick the body's bottom would pass y = 64.
    assert_eq!(first_contact_tick, Some(12));
    // Within the contact tick the vertical velocity is exactly zero and the
    // body rests at 64.5 plus the epsilon correction of this tick's
    // displacement (0.96 blocks): 64.510.
    assert_eq!(body.velocity.y, 0);
    assert_eq!(body.position.y, 64_510);
    assert!((body.position.y - 64_500).abs() <= 10);

    // Further ticks settle the body just above the surface; it never sinks.
    for _ in 0..5 {
        let _ = step_body(&mut body, &terrain, &reg, 50).unwrap();
        assert_eq!(body.velocity.y, 0);
        assert!(body.position.y >= 64_500);
        assert!((body.position.y - 64_500).abs() <= 10);
    }
    assert_eq!(body.position.y, 64_501);
}

/// Two bodies with overlapping hitboxes registered in the same index emit
/// exactly one event per directed pair per tick, whichever order they were
/// registered in.
#[test]
fn overlapping_pair_emits_one_event_each() {
    let terrain = Terrain { cells: Vec::new() };
    for order in [[1u64, 2u64], [2u64, 1u64]] {
        let mut a = plain_body(order[0], v(0, 0, 0));
        a.entity_collision = Some(EntityCollisionConfig { entity_collider_hitbox: None });
        let mut b = plain_body(order[1], v(300, 300, 300));
        b.entity_collision = Some(EntityCollisionConfig { entity_collider_hitbox: None });
        let mut reg = BvhResource::with_bvhs(2);
        let bodies = vec![a, b];
        rebuild_indices(&mut reg, &bodies).unwrap();

        let mut first = bodies[0];
        let (_, events_first) = step_body(&mut first, &terrain, &reg, 50).unwrap();
        assert_eq!(events_first.len(), 1);
        assert_eq!(events_first[0].entity1, order[0]);
        assert_eq!(events_first[0].entity2, order[1]);

        let mut second = bodies[1];
        let (_, events_second) = step_body(&mut second, &terrain, &reg, 50).unwrap();
        assert_eq!(events_second.len(), 1);
        assert_eq!(events_second[0].entity1, order[1]);
        assert_eq!(events_second[0].entity2, order[0]);
    }
}

/// Bodies not opted into an index are excluded from it entirely.
#[test]
fn non_participants_are_not_indexed() {
    let terrain = Terrain { cells: Vec::new() };
    let mut a = plain_body(1, v(0, 0, 0));
    a.entity_collision = Some(EntityCollisionConfig { entity_collider_hitbox: None });
    let b = plain_body(2, v(100, 100, 100));
    let mut reg = BvhResource::with_bvhs(2);
    rebuild_indices(&mut reg, &vec![a, b]).unwrap();
    let mut detector = a;
    let (_, events) = step_body(&mut detector, &terrain, &reg, 50).unwrap();
    assert!(events.is_empty());
}

/// A body opted into body-vs-body collision against a registry missing the
/// standard index fails loudly and changes nothing.
#[test]
fn unregistered_index_is_a_configuration_error() {
    let terrain = Terrain { cells: Vec::new() };
    let reg = BvhResource::with_bvhs(0);
    let mut body = plain_body(1, v(0, 0, 0));
    body.entity_collision = Some(EntityCollisionConfig { entity_collider_hitbox: None });
    let before_pos = body.position;
    assert!(step_body(&mut body, &terrain, &reg, 50).is_err());
    assert_eq!(body.position, before_pos);
}

/// Drag, acceleration and the speed limit integrate exactly, in that order.
#[test]
fn velocity_integration_is_exact() {
    let terrain = Terrain { cells: Vec::new() };
    let reg = BvhResource::with_bvhs(2);

    // Drag 0.5/s over a full second halves the velocity, then acceleration
    // 0.2/s^2 adds 0.2, then the limit 0.3 rescales the result down to it.
    let mut body = plain_body(1, v(0, 0, 0));
    body.velocity = v(1000, 0, 0);
    body.drag = Some(v(500, 500, 500));
    body.acceleration = Some(v(200, 0, 0));
    body.speed_limit = Some(300);
    let _ = step_body(&mut body, &terrain, &reg, 1000).unwrap();
    assert_eq!(body.velocity, v(300, 0, 0));
    // The advance uses the limited velocity: 0.3 blocks over the second.
    assert_eq!(body.position, v(300, 0, 0));

    // Without a limit the integrated velocity stands as is.
    let mut body = plain_body(2, v(0, 0, 0));
    body.velocity = v(1000, 0, 0);
    body.drag = Some(v(500, 500, 500));
    body.acceleration = Some(v(200, 0, 0));
    let _ = step_body(&mut body, &terrain, &reg, 1000).unwrap();
    assert_eq!(body.velocity, v(700, 0, 0));
    assert_eq!(body.position, v(700, 0, 0));
}

/// A body configured to stop on ground contact loses its whole velocity on
/// landing, not only the vertical component.
#[test]
fn stop_on_ground_zeroes_all_axes() {
    let mut cells = Vec::new();
    for x in -3..=3 {
        for z in -3..=3 {
            cells.push(solid_cell(x, 63, z));
        }
    }
    let terrain = Terrain { cells };
    let reg = BvhResource::with_bvhs(2);
    let mut body = plain_body(5, v(500, 64_500, 500));
    body.velocity = v(400, -600, 0);
    body.block_collision = Some(BlockCollisionConfig { block_collider_hitbox: None });
    body.stop_on_block_collision = Some(StopOnBlockCollision::ground());
    let (block_events, _) = step_body(&mut body, &terrain, &reg, 1000).unwrap();
    assert!(!block_events.is_empty());
    assert_eq!(block_events[0].block_face_bitmap & 2, 2);
    assert_eq!(body.velocity, v(0, 0, 0));
}

/// A whole tick over several bodies steps each one and concatenates their
/// events in body order.
#[test]
fn step_all_runs_every_body() {
    let terrain = Terrain { cells: vec![solid_cell(0, 63, 0)] };
    let mut a = plain_body(1, v(500, 64_500, 500));
    a.entity_collision = Some(EntityCollisionConfig { entity_collider_hitbox: None });
    let mut b = plain_body(2, v(700, 64_600, 500));
    b.entity_collision = Some(EntityCollisionConfig { entity_collider_hitbox: None });
    let mut c = plain_body(3, v(500, 70_000, 500));
    c.velocity = v(0, -2000, 0);
    c.block_collision = Some(BlockCollisionConfig { block_collider_hitbox: None });

    let mut bodies = vec![a, b, c];
    let mut reg = BvhResource::with_bvhs(2);
    rebuild_indices(&mut reg, &bodies).unwrap();
    let (block_events, entity_events) = step_all(&mut bodies, &terrain, &reg, 50).unwrap();
    // The overlapping pair reports once from each side, in body order.
    assert_eq!(entity_events.len(), 2);
    assert_eq!((entity_events[0].entity1, entity_events[0].entity2), (1, 2));
    assert_eq!((entity_events[1].entity1, entity_events[1].entity2), (2, 1));
    // The falling body moved; the resting ones did not.
    assert!(block_events.is_empty());
    assert_eq!(bodies[0].position, v(500, 64_500, 500));
    assert_eq!(bodies[2].position.y, 70_000 - 2000 * 50 / 1000);

    // A registry without the body-vs-body index rejects the tick unchanged.
    let empty_reg = BvhResource::with_bvhs(0);
    let before = bodies[0].position;
    assert!(step_all(&mut bodies, &terrain, &empty_reg, 50).is_err());
    assert_eq!(bodies[0].position, before);
}

/// Every call rebuilds both standard indexes from the current participant
/// set: with no participants both become empty, and previously indexed
/// entries do not survive the rebuild.
#[test]
fn rebuild_with_no_participants_empties_indices() {
    let mut reg = BvhResource::with_bvhs(2);
    let everywhere = cube((-100_000, -100_000, -100_000), (100_000, 100_000, 100_000));

    let mut a = plain_body(1, v(0, 0, 0));
    a.entity_collision = Some(EntityCollisionConfig { entity_collider_hitbox: None });
    a.block_collision = Some(BlockCollisionConfig { block_collider_hitbox: None });
    rebuild_indices(&mut reg, &vec![a]).unwrap();
    assert!(!reg.get_in_range(ENTITY_ENTITY_BVH_IDX, &everywhere).unwrap().is_empty());
    assert!(!reg.get_in_range(ENTITY_BLOCK_BVH_IDX, &everywhere).unwrap().is_empty());

    // A tick where no body opts into either index empties both.
    let bystander = plain_body(2, v(0, 0, 0));
    rebuild_indices(&mut reg, &vec![bystander]).unwrap();
    assert!(reg.get_in_range(ENTITY_ENTITY_BVH_IDX, &everywhere).unwrap().is_empty());
    assert!(reg.get_closest(ENTITY_ENTITY_BVH_IDX, v(0, 0, 0)).unwrap().is_none());
    assert!(reg.get_in_range(ENTITY_BLOCK_BVH_IDX, &everywhere).unwrap().is_empty());

    // So does a tick with no bodies at all.
    rebuild_indices(&mut reg, &vec![a]).unwrap();
    rebuild_indices(&mut reg, &Vec::new()).unwrap();
    assert!(reg.get_in_range(ENTITY_ENTITY_BVH_IDX, &everywhere).unwrap().is_empty());
    assert!(reg.get_closest(ENTITY_BLOCK_BVH_IDX, v(0, 0, 0)).unwrap().is_none());

    // A registry missing a standard index is reported even then.
    let mut unregistered = BvhResource::with_bvhs(0);
    assert!(rebuild_indices(&mut unregistered, &Vec::new()).is_err());
}
