use zombrise::combat::update_damage_flash;
use zombrise::components::{DamageFlash, Facing, Health, Transform};
use zombrise::lifecycle::{connect_client, disconnect_client, reap, setup_arena, update_map_size,
    ReapMode, Removal, RemovalReason};
use zombrise::replication::{encode_for_client, ClientView, ReliableMessage, UnreliableMessage};
use zombrise::vec3::{dist_sq, isqrt_u64, Vec3Milli};
use zombrise::world::{advance_position, Entity, EntityData, World};

fn at(x: i64, y: i64, z: i64) -> Transform {
    Transform {
        position: Vec3Milli { x, y, z },
        facing: Facing { x_milli: 0, z_milli: -1000 },
        scale_milli: 1000,
    }
}

fn player(id: u64, owner: u64, current: u32, x: i64, y: i64, z: i64) -> Entity {
    Entity {
        id,
        data: EntityData::Player {
            owner,
            health: Health { current, max: 100_000 },
            flash: DamageFlash { timer_ms: 0 },
        },
        transform: at(x, y, z),
        velocity: Vec3Milli { x: 0, y: 0, z: 0 },
    }
}

fn world_of(entities: Vec<Entity>) -> World {
    let next_id = entities.iter().map(|e| e.id).max().map_or(0, |m| m + 1);
    World { entities, next_id, spawn_timer_ms: 0 }
}

/// A connecting client gets exactly one player, at the spawn point with
/// default health; connecting again changes nothing.
#[test]
fn connect_spawns_at_most_one_player_per_client() {
    let mut w = World::new();
    connect_client(&mut w, 4);
    connect_client(&mut w, 4);
    assert_eq!(w.entities.len(), 1);
    let e = &w.entities[0];
    match e.data {
        EntityData::Player { owner, health, flash } => {
            assert_eq!(owner, 4);
            assert_eq!(health.current, 100_000);
            assert_eq!(health.max, 100_000);
            assert_eq!(flash.timer_ms, 0);
        },
        _ => panic!("expected a player"),
    }
    assert_eq!(e.transform.position, Vec3Milli { x: 0, y: 500, z: 0 });
}

/// A disconnect reaps the client's player and logs why.
#[test]
fn disconnect_cleans_up_the_owned_player() {
    let mut w = World::new();
    connect_client(&mut w, 4);
    connect_client(&mut w, 5);
    let removals = disconnect_client(&mut w, 4);
    assert_eq!(w.entities.len(), 1);
    assert_eq!(removals, vec![Removal { id: 0, reason: RemovalReason::Disconnected }]);
}

/// The fallen sweep reaps players and zombies below the world floor
/// and names the owning client.
#[test]
fn fallen_entities_are_reaped() {
    let mut w = world_of(vec![
        player(0, 1, 100_000, 0, -11_000, 0),
        player(1, 2, 100_000, 0, 500, 0),
        Entity {
            id: 2,
            data: EntityData::Zombie,
            transform: at(0, -20_000, 0),
            velocity: Vec3Milli { x: 0, y: 0, z: 0 },
        },
    ]);
    let (removals, owners) = reap(&mut w, ReapMode::Fallen);
    assert_eq!(w.entities.len(), 1);
    assert_eq!(w.entities[0].id, 1);
    assert_eq!(owners, vec![1]);
    assert_eq!(removals.len(), 2);
    assert!(removals.iter().all(|r| r.reason == RemovalReason::Fell));
}

/// The dead sweep removes exactly the players at zero health.
#[test]
fn dead_sweep_removes_zero_health_players() {
    let mut w = world_of(vec![player(0, 1, 0, 0, 500, 0), player(1, 2, 1, 0, 500, 0)]);
    let (removals, owners) = reap(&mut w, ReapMode::Dead);
    assert_eq!(w.entities.len(), 1);
    assert_eq!(w.entities[0].id, 1);
    assert_eq!(owners, vec![1]);
    assert_eq!(removals, vec![Removal { id: 0, reason: RemovalReason::Death }]);
}

/// The flash timer runs down with elapsed time and clamps at zero.
#[test]
fn damage_flash_counts_down_and_clamps() {
    let mut w = world_of(vec![player(0, 1, 100_000, 0, 500, 0)]);
    match &mut w.entities[0].data {
        EntityData::Player { flash, .. } => flash.timer_ms = 300,
        _ => unreachable!(),
    }
    update_damage_flash(&mut w, 120);
    match w.entities[0].data {
        EntityData::Player { flash, .. } => assert_eq!(flash.timer_ms, 180),
        _ => unreachable!(),
    }
    update_damage_flash(&mut w, 400);
    match w.entities[0].data {
        EntityData::Player { flash, .. } => assert_eq!(flash.timer_ms, 0),
        _ => unreachable!(),
    }
}

/// The ground scales with the player population.
#[test]
fn ground_scale_tracks_player_count() {
    let mut w = World::new();
    setup_arena(&mut w);
    connect_client(&mut w, 1);
    connect_client(&mut w, 2);
    update_map_size(&mut w);
    let ground = w.entities.iter().find(|e| matches!(e.data, EntityData::Ground)).unwrap();
    assert_eq!(ground.transform.scale_milli, 1400);
}

/// The arena holds the ground and five trees.
#[test]
fn arena_has_ground_and_trees() {
    let mut w = World::new();
    setup_arena(&mut w);
    let grounds = w.entities.iter().filter(|e| matches!(e.data, EntityData::Ground)).count();
    let trees = w.entities.iter().filter(|e| matches!(e.data, EntityData::Tree)).count();
    assert_eq!((grounds, trees), (1, 5));
}

/// A new subscriber is sent a spawn, with full state, for every entity;
/// nothing travels unreliably before that spawn.
#[test]
fn first_encode_spawns_everything_reliably() {
    let mut w = World::new();
    connect_client(&mut w, 9);
    let (view, rel, unrel) = encode_for_client(&w, ClientView::new(9), &Vec::new());
    assert_eq!(rel.len(), 1);
    assert!(matches!(rel[0], ReliableMessage::Spawn(_)));
    assert_eq!(unrel.len(), 0);
    assert_eq!(view.sent.len(), 1);
}

/// Only changed continuous fields travel, unreliably, and only for
/// entities already spawned at the subscriber.
#[test]
fn diffs_travel_unreliably_after_the_spawn() {
    let mut w = World::new();
    connect_client(&mut w, 9);
    let (view, _, _) = encode_for_client(&w, ClientView::new(9), &Vec::new());
    let (view2, rel2, unrel2) = encode_for_client(&w, view, &Vec::new());
    assert_eq!(rel2.len(), 0, "nothing structural changed");
    assert_eq!(unrel2.len(), 0, "nothing continuous changed");
    w.entities[0].transform.position.x = 777;
    let (_, rel3, unrel3) = encode_for_client(&w, view2, &Vec::new());
    assert_eq!(rel3.len(), 0);
    assert_eq!(unrel3.len(), 1);
    match unrel3[0] {
        UnreliableMessage::TransformUpdate { id, transform } => {
            assert_eq!(id, 0);
            assert_eq!(transform.position.x, 777);
        },
        _ => panic!("expected a transform update"),
    }
}

/// A departed entity is despawned on the reliable channel with the
/// reason the lifecycle logged, never before its spawn.
#[test]
fn despawn_carries_the_logged_reason() {
    let mut w = World::new();
    connect_client(&mut w, 9);
    let (view, _, _) = encode_for_client(&w, ClientView::new(9), &Vec::new());
    let removals = disconnect_client(&mut w, 9);
    let (view2, rel, unrel) = encode_for_client(&w, view, &removals);
    assert_eq!(unrel.len(), 0);
    assert_eq!(rel.len(), 1);
    match rel[0] {
        ReliableMessage::Despawn { id, reason } => {
            assert_eq!(id, 0);
            assert_eq!(reason, RemovalReason::Disconnected);
        },
        _ => panic!("expected a despawn"),
    }
    assert_eq!(view2.sent.len(), 0);
}

/// The integer square root brackets its argument exactly.
#[test]
fn integer_square_root_is_exact() {
    assert_eq!(isqrt_u64(0), 0);
    assert_eq!(isqrt_u64(1), 1);
    assert_eq!(isqrt_u64(3), 1);
    assert_eq!(isqrt_u64(4), 2);
    assert_eq!(isqrt_u64(99), 9);
    assert_eq!(isqrt_u64(100), 10);
    assert_eq!(isqrt_u64(10_000_000_000), 100_000);
}

/// Squared distance in milli scale is exact.
#[test]
fn squared_distance_is_exact() {
    let a = Vec3Milli { x: 0, y: 0, z: 0 };
    let b = Vec3Milli { x: 3000, y: 0, z: 4000 };
    assert_eq!(dist_sq(a, b), 25_000_000);
}

/// The built-in integrator advances by velocity over time and clamps to
/// the world bound.
#[test]
fn integrator_advances_and_clamps() {
    let p = Vec3Milli { x: 0, y: 500, z: 0 };
    let v = Vec3Milli { x: 2000, y: 0, z: -1000 };
    let moved = advance_position(p, v, 500);
    assert_eq!((moved.x, moved.y, moved.z), (1000, 500, -500));
    let edge = advance_position(
        Vec3Milli { x: 1_000_000_000, y: 0, z: 0 },
        Vec3Milli { x: 1_000_000_000, y: 0, z: 0 },
        1000,
    );
    assert_eq!(edge.x, 1_000_000_000);
}

/// Default health is full health.
#[test]
fn default_health_is_full() {
    let h = Health::default();
    assert_eq!((h.current, h.max), (100_000, 100_000));
    let f = DamageFlash::default();
    assert_eq!(f.timer_ms, 0);
}

/// Damage clamps at zero and leaves the maximum alone.
#[test]
fn apply_damage_clamps() {
    let mut h = Health { current: 5_000, max: 100_000 };
    h.apply_damage(2_000);
    assert_eq!(h.current, 3_000);
    h.apply_damage(50_000);
    assert_eq!(h.current, 0);
    assert_eq!(h.max, 100_000);
}
