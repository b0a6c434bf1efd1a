use zombrise::ai::ai_step;
use zombrise::combat::{proximity_damage, resolve_attack};
use zombrise::components::{DamageFlash, Facing, Health, Transform};
use zombrise::lifecycle::spawn_zombies;
use zombrise::server::{ConnectionEvent, ServerState};
use zombrise::vec3::Vec3Milli;
use zombrise::world::{Entity, EntityData, World};

fn at(x: i64, y: i64, z: i64) -> Transform {
    Transform {
        position: Vec3Milli { x, y, z },
        facing: Facing { x_milli: 0, z_milli: -1000 },
        scale_milli: 1000,
    }
}

fn player(id: u64, owner: u64, current: u32, x: i64, z: i64) -> Entity {
    Entity {
        id,
        data: EntityData::Player {
            owner,
            health: Health { current, max: 100_000 },
            flash: DamageFlash { timer_ms: 0 },
        },
        transform: at(x, 500, z),
        velocity: Vec3Milli { x: 0, y: 0, z: 0 },
    }
}

fn zombie(id: u64, x: i64, z: i64) -> Entity {
    Entity {
        id,
        data: EntityData::Zombie,
        transform: at(x, 500, z),
        velocity: Vec3Milli { x: 0, y: 0, z: 0 },
    }
}

fn world_of(entities: Vec<Entity>) -> World {
    let next_id = entities.iter().map(|e| e.id).max().map_or(0, |m| m + 1);
    World { entities, next_id, spawn_timer_ms: 0 }
}

fn health_of(e: &Entity) -> Health {
    match e.data {
        EntityData::Player { health, .. } => health,
        _ => panic!("not a player"),
    }
}

fn flash_of(e: &Entity) -> u32 {
    match e.data {
        EntityData::Player { flash, .. } => flash.timer_ms,
        _ => panic!("not a player"),
    }
}

/// One second of contact with one zombie costs exactly ten points and
/// rewinds the flash to its full duration.
#[test]
fn proximity_damage_one_second_costs_ten_points() {
    let mut w = world_of(vec![player(0, 1, 100_000, 0, 0), zombie(1, 1000, 0)]);
    proximity_damage(&mut w, 1000);
    assert_eq!(health_of(&w.entities[0]).current, 90_000);
    assert_eq!(flash_of(&w.entities[0]), 300);
}

/// The same second, split into sixty ticks, costs the same.
#[test]
fn proximity_damage_is_exact_across_tick_sizes() {
    let mut w = world_of(vec![player(0, 1, 100_000, 0, 0), zombie(1, 1000, 0)]);
    for _ in 0..50 {
        proximity_damage(&mut w, 20);
    }
    assert_eq!(health_of(&w.entities[0]).current, 90_000);
}

/// A zombie outside collision distance deals nothing.
#[test]
fn proximity_damage_needs_contact() {
    let mut w = world_of(vec![player(0, 1, 100_000, 0, 0), zombie(1, 1600, 0)]);
    proximity_damage(&mut w, 1000);
    assert_eq!(health_of(&w.entities[0]).current, 100_000);
    assert_eq!(flash_of(&w.entities[0]), 0);
}

/// Health clamps at zero and never leaves `[0, max]`, even under a
/// swarm and a long tick.
#[test]
fn proximity_damage_clamps_at_zero() {
    let mut w = world_of(vec![
        player(0, 1, 100_000, 0, 0),
        zombie(1, 1000, 0),
        zombie(2, -1000, 0),
        zombie(3, 0, 1000),
        zombie(4, 0, -1000),
        zombie(5, 700, 700),
    ]);
    proximity_damage(&mut w, 60_000);
    let h = health_of(&w.entities[0]);
    assert_eq!(h.current, 0);
    assert!(h.current <= h.max);
}

/// A player at five points takes one more contact tick, reaches zero,
/// is removed in the same tick's lifecycle, and its client is told to
/// disconnect.
#[test]
fn low_health_player_dies_and_disconnects() {
    let mut server = ServerState {
        world: world_of(vec![player(0, 7, 5_000, 0, 0), zombie(1, 1000, 0)]),
        views: Vec::new(),
        pending_attacks: Vec::new(),
        removals: Vec::new(),
    };
    let out = server.finish_tick(1000);
    assert!(server.world.entities.iter().all(|e| !matches!(
        e.data,
        EntityData::Player { .. }
    )));
    assert_eq!(out.disconnects, vec![7]);
}

/// An attack despawns the zombie inside range and spares the one
/// farther away.
#[test]
fn attack_despawns_near_zombie_only() {
    let mut w = world_of(vec![player(0, 1, 100_000, 0, 0), zombie(1, 1000, 0), zombie(2, 3000, 0)]);
    resolve_attack(&mut w, 1);
    let ids: Vec<u64> = w.entities.iter().map(|e| e.id).collect();
    assert_eq!(ids, vec![0, 2]);
}

/// An attack from a client without a live player is a no-op.
#[test]
fn attack_from_unmapped_client_is_ignored() {
    let mut w = world_of(vec![player(0, 1, 100_000, 0, 0), zombie(1, 1000, 0)]);
    resolve_attack(&mut w, 99);
    assert_eq!(w.entities.len(), 2);
}

/// An attack damages another player in range with the usual clamp and
/// flash, and spares the attacker.
#[test]
fn attack_damages_other_player_in_range() {
    let mut w = world_of(vec![player(0, 1, 100_000, 0, 0), player(1, 2, 100_000, 1500, 0)]);
    resolve_attack(&mut w, 1);
    assert_eq!(health_of(&w.entities[0]).current, 100_000);
    assert_eq!(health_of(&w.entities[1]).current, 90_000);
    assert_eq!(flash_of(&w.entities[1]), 300);
}

/// The spawn timer completes after its interval, and the attempt beyond
/// the population cap is suppressed: the count stays at the cap.
#[test]
fn zombie_spawn_cap_suppresses_the_attempt_beyond_it() {
    let mut entities = Vec::new();
    for i in 0..30u64 {
        entities.push(zombie(i, (i as i64) * 2000, 0));
    }
    let mut w = world_of(entities);
    w.spawn_timer_ms = 19_000;
    spawn_zombies(&mut w, 1000);
    assert_eq!(w.entities.len(), 30);
    assert_eq!(w.spawn_timer_ms, 0);
}

/// Below the cap the completed timer spawns exactly one zombie, inside
/// the spawn square at spawn height.
#[test]
fn zombie_spawns_when_below_cap() {
    let mut w = world_of(vec![zombie(0, 0, 0)]);
    w.spawn_timer_ms = 19_999;
    spawn_zombies(&mut w, 1);
    assert_eq!(w.entities.len(), 2);
    let z = &w.entities[1];
    assert!(matches!(z.data, EntityData::Zombie));
    assert_eq!(z.transform.position.y, 500);
    assert!(z.transform.position.x >= -20_000 && z.transform.position.x <= 20_000);
    assert!(z.transform.position.z >= -20_000 && z.transform.position.z <= 20_000);
}

/// Before the interval completes, nothing spawns and the timer only
/// accumulates.
#[test]
fn zombie_spawn_waits_for_the_interval() {
    let mut w = world_of(vec![]);
    w.spawn_timer_ms = 10_000;
    spawn_zombies(&mut w, 1000);
    assert_eq!(w.entities.len(), 0);
    assert_eq!(w.spawn_timer_ms, 11_000);
}

/// A zombie within chase range of one player moves straight at it at
/// exactly zombie speed (the offset lies along one axis).
#[test]
fn zombie_chases_player_at_zombie_speed() {
    let mut w = world_of(vec![player(0, 1, 100_000, 5000, 0), zombie(1, 0, 0)]);
    ai_step(&mut w);
    let z = &w.entities[1];
    assert_eq!(z.velocity.x, 2000);
    assert_eq!(z.velocity.z, 0);
    assert_eq!(z.transform.facing.x_milli, 2000);
    assert_eq!(z.transform.facing.z_milli, 0);
}

/// The chase targets the nearest player.
#[test]
fn zombie_chases_the_nearest_player() {
    let mut w = world_of(vec![
        player(0, 1, 100_000, 8000, 0),
        player(1, 2, 100_000, -3000, 0),
        zombie(2, 0, 0),
    ]);
    ai_step(&mut w);
    let z = &w.entities[2];
    assert!(z.velocity.x < 0, "moves toward the closer player on -x");
}

/// Out of chase range the zombie wanders, but never beyond its speed.
#[test]
fn wandering_zombie_stays_within_its_speed() {
    let mut w = world_of(vec![zombie(0, 0, 0)]);
    ai_step(&mut w);
    let z = &w.entities[0];
    assert!(z.velocity.x.abs() <= 2000);
    assert!(z.velocity.z.abs() <= 2000);
    assert_eq!(z.velocity.y, 0);
}

/// A whole tick through the server: a connecting client gets a player,
/// and the packet stream spawns it on the reliable channel.
#[test]
fn connect_spawns_player_and_replicates_it() {
    let mut server = ServerState::new();
    zombrise::lifecycle::setup_arena(&mut server.world);
    let events = vec![ConnectionEvent::Connected { client_id: 5 }];
    server.begin_tick(&events, &Vec::new());
    server.world.integrate(16);
    let out = server.finish_tick(16);
    assert_eq!(server.world.entities.len(), 7, "arena plus one player");
    assert_eq!(out.packets.len(), 1);
    assert_eq!(out.packets[0].client_id, 5);
    assert_eq!(out.packets[0].reliable.len(), 7, "everything spawns for a new subscriber");
    assert_eq!(out.packets[0].unreliable.len(), 0);
    assert_eq!(out.disconnects.len(), 0);
}
