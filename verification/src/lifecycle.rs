//! The lifecycle manager: spawn on connect, reaping of dead and fallen
//! entities, forced disconnects, the zombie spawn timer with its
//! population cap, and the arena's static colliders.

use vstd::prelude::*;
use crate::components::{DamageFlash, Health, Transform};
use crate::rng::random_u64;
use crate::units::{FALL_DEATH_Y_MILLI, MAP_SCALE_PER_PLAYER_MILLI, MAX_TICK_MS,
    SPAWN_HEIGHT_MILLI, ZOMBIE_CAP, ZOMBIE_SPAWN_HALF_RANGE_MILLI, ZOMBIE_SPAWN_INTERVAL_MS};
use crate::vec3::Vec3Milli;
use crate::world::{lemma_filter_keeps_invariants, player_spawn_point, spec_has_owner,
    spec_zombie_count, Entity, EntityData, World};

verus! {

/// Why an entity left the world; sent with its despawn so that clients
/// need not infer death from absence.
#[derive(Clone, Copy, PartialEq, Eq, Structural, Debug)]
pub enum RemovalReason {
    /// A player's health reached zero.
    Death,
    /// The entity fell below the world floor.
    Fell,
    /// The owning client disconnected.
    Disconnected,
}

/// One entity's departure this tick.
#[derive(Clone, Copy, PartialEq, Eq, Structural, Debug)]
pub struct Removal {
    pub id: u64,
    pub reason: RemovalReason,
}

/// Which sweep the reaper runs.
#[derive(Clone, Copy, PartialEq, Eq, Structural, Debug)]
pub enum ReapMode {
    /// Players whose health has reached zero.
    Dead,
    /// Players and zombies below the world floor.
    Fallen,
    /// The named client's player, after its connection closed.
    Disconnected(u64),
}

/// The entities a sweep removes.
pub open spec fn spec_reaped(mode: ReapMode, e: Entity) -> bool {
    match mode {
        ReapMode::Dead => e.spec_is_player() && e.spec_health().current == 0,
        ReapMode::Fallen => (e.spec_is_player() || e.spec_is_zombie())
            && e.transform.position.y < FALL_DEATH_Y_MILLI,
        ReapMode::Disconnected(c) => e.spec_is_player() && e.spec_owner() == c,
    }
}

/// The reason a sweep writes on each removal.
pub open spec fn spec_reap_reason(mode: ReapMode) -> RemovalReason {
    match mode {
        ReapMode::Dead => RemovalReason::Death,
        ReapMode::Fallen => RemovalReason::Fell,
        ReapMode::Disconnected(_) => RemovalReason::Disconnected,
    }
}

/// The table after a sweep: exactly the entities the sweep spares.
pub open spec fn spec_after_reap(s: Seq<Entity>, mode: ReapMode) -> Seq<Entity> {
    s.filter(|e: Entity| !spec_reaped(mode, e))
}

/// The removal records a sweep emits, in table order.
pub open spec fn spec_reap_removals(s: Seq<Entity>, mode: ReapMode) -> Seq<Removal> {
    s.filter(|e: Entity| spec_reaped(mode, e)).map_values(
        |e: Entity| Removal { id: e.id, reason: spec_reap_reason(mode) },
    )
}

/// The clients to force-disconnect: owners of reaped players.
pub open spec fn spec_reap_owners(s: Seq<Entity>, mode: ReapMode) -> Seq<u64> {
    s.filter(|e: Entity| spec_reaped(mode, e) && e.spec_is_player()).map_values(
        |e: Entity| e.spec_owner(),
    )
}

/// One reaper sweep: despawn every entity the mode names, log each
/// removal with its reason, and name the owning clients so the caller
/// can disconnect them in the same tick.
#[verifier::rlimit(60)]
pub fn reap(world: &mut World, mode: ReapMode) -> (r: (Vec<Removal>, Vec<u64>))
    requires
        old(world).spec_wf(),
    ensures
        final(world).spec_wf(),
        final(world).next_id == old(world).next_id,
        final(world).spawn_timer_ms == old(world).spawn_timer_ms,
        final(world).entities@ == spec_after_reap(old(world).entities@, mode),
        r.0@ == spec_reap_removals(old(world).entities@, mode),
        r.1@ == spec_reap_owners(old(world).entities@, mode),
{
    broadcast use vstd::seq_lib::group_seq_properties;

    let ghost keep = |e: Entity| !spec_reaped(mode, e);
    let ghost gone = |e: Entity| spec_reaped(mode, e);
    let ghost gone_p = |e: Entity| spec_reaped(mode, e) && e.spec_is_player();
    let n = world.entities.len();
    let mut out: Vec<Entity> = Vec::new();
    let mut removals: Vec<Removal> = Vec::new();
    let mut owners: Vec<u64> = Vec::new();
    let mut j: usize = 0;
    proof {
        assert(world.entities@.take(0) =~= Seq::<Entity>::empty());
        reveal(Seq::filter);
    }
    while j < n
        invariant
            world.spec_wf(),
            n == world.entities@.len(),
            j <= n,
            out@ == world.entities@.take(j as int).filter(keep),
            removals@ == world.entities@.take(j as int).filter(gone).map_values(
                |e: Entity| Removal { id: e.id, reason: spec_reap_reason(mode) },
            ),
            owners@ == world.entities@.take(j as int).filter(gone_p).map_values(
                |e: Entity| e.spec_owner(),
            ),
            keep == (|e: Entity| !spec_reaped(mode, e)),
            gone == (|e: Entity| spec_reaped(mode, e)),
            gone_p == (|e: Entity| spec_reaped(mode, e) && e.spec_is_player()),
        decreases n - j,
    {
        proof {
            assert(world.entities@.take(j + 1).drop_last() =~= world.entities@.take(j as int));
            reveal(Seq::filter);
            assert(world.entities@[j as int].spec_wf());
        }
        let e = world.entities[j];
        let mut is_reaped: bool = false;
        let mut is_player: bool = false;
        let mut owner_of: u64 = 0;
        match e.data {
            EntityData::Player { owner, health, .. } => {
                is_player = true;
                owner_of = owner;
                match mode {
                    ReapMode::Dead => {
                        if health.current == 0 {
                            is_reaped = true;
                        }
                    },
                    ReapMode::Fallen => {
                        if e.transform.position.y < FALL_DEATH_Y_MILLI {
                            is_reaped = true;
                        }
                    },
                    ReapMode::Disconnected(c) => {
                        if owner == c {
                            is_reaped = true;
                        }
                    },
                }
            },
            EntityData::Zombie => {
                match mode {
                    ReapMode::Fallen => {
                        if e.transform.position.y < FALL_DEATH_Y_MILLI {
                            is_reaped = true;
                        }
                    },
                    _ => {},
                }
            },
            _ => {},
        }
        if is_reaped {
            removals.push(Removal { id: e.id, reason: reap_reason(mode) });
            if is_player {
                owners.push(owner_of);
            }
            proof {
                let t1 = world.entities@.take(j + 1);
                let t0 = world.entities@.take(j as int);
                assert(removals@ =~= t1.filter(gone).map_values(
                    |e: Entity| Removal { id: e.id, reason: spec_reap_reason(mode) },
                ));
                assert(owners@ =~= t1.filter(gone_p).map_values(|e: Entity| e.spec_owner()));
            }
        } else {
            out.push(e);
            proof {
                let t1 = world.entities@.take(j + 1);
                assert(owners@ =~= t1.filter(gone_p).map_values(|e: Entity| e.spec_owner()));
            }
        }
        j = j + 1;
    }
    proof {
        assert(world.entities@.take(n as int) =~= world.entities@);
    }
    let ghost s0 = world.entities@;
    world.entities = out;
    proof {
        lemma_filter_keeps_invariants(s0, keep);
        let f = s0.filter(keep);
        assert forall|k: int| 0 <= k < f.len() implies (#[trigger] f[k]).spec_wf()
            && f[k].id < world.next_id by {
            assert(s0.contains(f[k]));
            let w = choose|w: int| 0 <= w < s0.len() && s0[w] == f[k];
            assert(s0[w].spec_wf() && s0[w].id < world.next_id);
        }
    }
    (removals, owners)
}

/// The reason the sweep writes on each removal.
fn reap_reason(mode: ReapMode) -> (r: RemovalReason)
    ensures
        r == spec_reap_reason(mode),
{
    match mode {
        ReapMode::Dead => RemovalReason::Death,
        ReapMode::Fallen => RemovalReason::Fell,
        ReapMode::Disconnected(_) => RemovalReason::Disconnected,
    }
}

/// After the dead sweep no player at zero health remains: `Removed`
/// follows `Dead` within the same sweep.
pub proof fn lemma_no_dead_players_survive(s: Seq<Entity>)
    ensures
        forall|i: int|
            0 <= i < spec_after_reap(s, ReapMode::Dead).len()
                && (#[trigger] spec_after_reap(s, ReapMode::Dead)[i]).spec_is_player()
                ==> spec_after_reap(s, ReapMode::Dead)[i].spec_health().current > 0,
{
    let keep = |e: Entity| !spec_reaped(ReapMode::Dead, e);
    let f = s.filter(keep);
    assert forall|i: int| 0 <= i < f.len() && (#[trigger] f[i]).spec_is_player()
        implies f[i].spec_health().current > 0 by {
        s.lemma_filter_pred(keep, i);
    }
}

/// After the dead and fallen sweeps together, still no player at zero
/// health remains: a dead player never survives the tick's lifecycle.
pub proof fn lemma_no_dead_players_after_sweeps(s: Seq<Entity>)
    ensures
        forall|i: int|
            0 <= i < spec_after_reap(spec_after_reap(s, ReapMode::Dead), ReapMode::Fallen).len()
                && (#[trigger] spec_after_reap(
                spec_after_reap(s, ReapMode::Dead),
                ReapMode::Fallen,
            )[i]).spec_is_player() ==> spec_after_reap(
                spec_after_reap(s, ReapMode::Dead),
                ReapMode::Fallen,
            )[i].spec_health().current > 0,
{
    let s1 = spec_after_reap(s, ReapMode::Dead);
    let s2 = spec_after_reap(s1, ReapMode::Fallen);
    lemma_no_dead_players_survive(s);
    lemma_filter_keeps_invariants(s1, |e: Entity| !spec_reaped(ReapMode::Fallen, e));
    assert forall|i: int| 0 <= i < s2.len() && (#[trigger] s2[i]).spec_is_player()
        implies s2[i].spec_health().current > 0 by {
        assert(s1.contains(s2[i]));
        let w = choose|w: int| 0 <= w < s1.len() && s1[w] == s2[i];
        assert(s1[w].spec_health().current > 0);
    }
}

/// Every reaped player's owner is told to disconnect in the same sweep:
/// the owners list names exactly the owners of the removed players.
pub proof fn lemma_reaped_players_get_disconnects(s: Seq<Entity>, mode: ReapMode)
    ensures
        forall|i: int|
            0 <= i < s.len() && (#[trigger] s[i]).spec_is_player() && spec_reaped(mode, s[i])
                ==> spec_reap_owners(s, mode).contains(s[i].spec_owner()),
{
    let gone_p = |e: Entity| spec_reaped(mode, e) && e.spec_is_player();
    assert forall|i: int|
        0 <= i < s.len() && (#[trigger] s[i]).spec_is_player() && spec_reaped(mode, s[i])
        implies spec_reap_owners(s, mode).contains(s[i].spec_owner()) by {
        s.lemma_filter_contains(gone_p, i);
        let f = s.filter(gone_p);
        let w = choose|w: int| 0 <= w < f.len() && f[w] == s[i];
        assert(spec_reap_owners(s, mode)[w] == s[i].spec_owner());
    }
}

/// The player entity a connect spawns: default health, no flash, at the
/// spawn point, at rest.
pub open spec fn spec_spawned_player(id: u64, client_id: u64) -> Entity {
    Entity {
        id,
        data: EntityData::Player {
            owner: client_id,
            health: Health {
                current: crate::units::DEFAULT_HEALTH_MILLI,
                max: crate::units::DEFAULT_HEALTH_MILLI,
            },
            flash: DamageFlash { timer_ms: 0 },
        },
        transform: Transform {
            position: Vec3Milli { x: 0, y: SPAWN_HEIGHT_MILLI, z: 0 },
            facing: crate::components::Facing { x_milli: 0, z_milli: -1000i64 },
            scale_milli: 1000,
        },
        velocity: Vec3Milli { x: 0, y: 0, z: 0 },
    }
}

/// Spawn a player for a connecting client at the spawn point with full
/// default health.  A client that already owns a player is left as it
/// is: at most one player per connection.
pub fn connect_client(world: &mut World, client_id: u64)
    requires
        old(world).spec_wf(),
        old(world).next_id < u64::MAX,
    ensures
        final(world).spec_wf(),
        final(world).spawn_timer_ms == old(world).spawn_timer_ms,
        spec_has_owner(old(world).entities@, client_id) ==> *final(world) == *old(world),
        !spec_has_owner(old(world).entities@, client_id) ==> final(world).entities@ == old(world).entities@.push(
            spec_spawned_player(old(world).next_id, client_id),
        ) && final(world).next_id == old(world).next_id + 1,
{
    let found = world.find_player_by_owner(client_id);
    match found {
        Some(_) => {},
        None => {
            let health = Health::default();
            let flash = DamageFlash::default();
            let transform = Transform::at_position(player_spawn_point());
            world.spawn(
                EntityData::Player { owner: client_id, health, flash },
                transform,
            );
        },
    }
}

/// Handle a closed connection: despawn the client's player, if any, and
/// log the removal, before any snapshot of the tick is built.
pub fn disconnect_client(world: &mut World, client_id: u64) -> (r: Vec<Removal>)
    requires
        old(world).spec_wf(),
    ensures
        final(world).spec_wf(),
        final(world).next_id == old(world).next_id,
        final(world).spawn_timer_ms == old(world).spawn_timer_ms,
        final(world).entities@ == spec_after_reap(
            old(world).entities@,
            ReapMode::Disconnected(client_id),
        ),
        r@ == spec_reap_removals(old(world).entities@, ReapMode::Disconnected(client_id)),
{
    let (removals, _) = reap(world, ReapMode::Disconnected(client_id));
    removals
}

/// One drawn spawn coordinate, within the spawn square.
pub open spec fn spec_spawn_coord(r: u64) -> int {
    (r % 40_001) - ZOMBIE_SPAWN_HALF_RANGE_MILLI
}

/// The zombie a spawn attempt appends under two draws.
pub open spec fn spec_spawned_zombie(next_id: u64, r1: u64, r2: u64) -> Entity {
    Entity {
        id: next_id,
        data: EntityData::Zombie,
        transform: Transform {
            position: Vec3Milli {
                x: spec_spawn_coord(r1) as i64,
                y: SPAWN_HEIGHT_MILLI,
                z: spec_spawn_coord(r2) as i64,
            },
            facing: crate::components::Facing { x_milli: 0, z_milli: -1000i64 },
            scale_milli: 1000,
        },
        velocity: Vec3Milli { x: 0, y: 0, z: 0 },
    }
}

/// Advance the repeating spawn timer; when it completes, spawn one
/// zombie at a drawn position unless the population cap is reached.
/// The attempt beyond the cap is suppressed entirely.
pub fn spawn_zombies(world: &mut World, dt_ms: u32)
    requires
        old(world).spec_wf(),
        old(world).next_id < u64::MAX,
        old(world).spawn_timer_ms <= ZOMBIE_SPAWN_INTERVAL_MS,
        dt_ms <= MAX_TICK_MS,
    ensures
        final(world).spec_wf(),
        final(world).spawn_timer_ms <= ZOMBIE_SPAWN_INTERVAL_MS,
        old(world).spawn_timer_ms + dt_ms < ZOMBIE_SPAWN_INTERVAL_MS ==> final(world).entities@
            == old(world).entities@ && final(world).spawn_timer_ms == old(world).spawn_timer_ms
            + dt_ms && final(world).next_id == old(world).next_id,
        old(world).spawn_timer_ms + dt_ms >= ZOMBIE_SPAWN_INTERVAL_MS ==> final(world).spawn_timer_ms == ((old(world).spawn_timer_ms + dt_ms) as int) % (ZOMBIE_SPAWN_INTERVAL_MS as int),
        old(world).spawn_timer_ms + dt_ms >= ZOMBIE_SPAWN_INTERVAL_MS && spec_zombie_count(
            old(world).entities@,
        ) >= ZOMBIE_CAP ==> final(world).entities@ == old(world).entities@ && final(world).next_id == old(world).next_id,
        old(world).spawn_timer_ms + dt_ms >= ZOMBIE_SPAWN_INTERVAL_MS && spec_zombie_count(
            old(world).entities@,
        ) < ZOMBIE_CAP ==> exists|r1: u64, r2: u64|
            final(world).entities@ == old(world).entities@.push(
                spec_spawned_zombie(old(world).next_id, r1, r2),
            ),
        spec_zombie_count(old(world).entities@) <= ZOMBIE_CAP ==> spec_zombie_count(
            final(world).entities@,
        ) <= ZOMBIE_CAP,
{
    broadcast use vstd::seq_lib::group_seq_properties;

    let ticked: u32 = world.spawn_timer_ms + dt_ms;
    if ticked < ZOMBIE_SPAWN_INTERVAL_MS {
        world.spawn_timer_ms = ticked;
        return;
    }
    world.spawn_timer_ms = ticked % ZOMBIE_SPAWN_INTERVAL_MS;
    let count = world.zombie_count();
    if count >= ZOMBIE_CAP {
        return;
    }
    let r1 = random_u64();
    let r2 = random_u64();
    let x: i64 = (r1 % 40_001) as i64 - ZOMBIE_SPAWN_HALF_RANGE_MILLI;
    let z: i64 = (r2 % 40_001) as i64 - ZOMBIE_SPAWN_HALF_RANGE_MILLI;
    let transform = Transform::at_position(Vec3Milli { x, y: SPAWN_HEIGHT_MILLI, z });
    let ghost s0 = world.entities@;
    world.spawn(EntityData::Zombie, transform);
    proof {
        let zombie = spec_spawned_zombie(old(world).next_id, r1, r2);
        assert(final(world).entities@ == s0.push(zombie));
        reveal(Seq::filter);
        assert(s0.push(zombie).drop_last() =~= s0);
        assert(spec_zombie_count(s0.push(zombie)) == spec_zombie_count(s0) + 1);
    }
}

/// Scale the ground with the number of connected players.
pub open spec fn spec_map_scale(player_count: int) -> int {
    1000 + MAP_SCALE_PER_PLAYER_MILLI * (if player_count <= 1_000_000 {
        player_count
    } else {
        1_000_000
    })
}

/// Grow the ground collider with the player population: its scale is
/// the base scale plus a share per connected player.
pub fn update_map_size(world: &mut World)
    requires
        old(world).spec_wf(),
    ensures
        final(world).spec_wf(),
        final(world).next_id == old(world).next_id,
        final(world).spawn_timer_ms == old(world).spawn_timer_ms,
        final(world).entities@.len() == old(world).entities@.len(),
        forall|i: int|
            0 <= i < old(world).entities@.len() ==> #[trigger] final(world).entities@[i]
                == (if old(world).entities@[i].data is Ground {
                Entity {
                    transform: Transform {
                        scale_milli: spec_map_scale(
                            crate::world::spec_player_count(old(world).entities@) as int,
                        ) as i64,
                        ..old(world).entities@[i].transform
                    },
                    ..old(world).entities@[i]
                }
            } else {
                old(world).entities@[i]
            }),
{
    let count = world.player_count();
    let capped: i64 = if count as u64 > 1_000_000u64 {
        1_000_000i64
    } else {
        count as i64
    };
    proof {
        assert(0 <= MAP_SCALE_PER_PLAYER_MILLI * (capped as int)
            <= MAP_SCALE_PER_PLAYER_MILLI * 1_000_000) by (nonlinear_arith)
            requires 0 <= capped <= 1_000_000i64, MAP_SCALE_PER_PLAYER_MILLI == 200i64;
    }
    let scale: i64 = 1000 + MAP_SCALE_PER_PLAYER_MILLI * capped;
    let n = world.entities.len();
    let mut i: usize = 0;
    while i < n
        invariant
            world.spec_wf(),
            old(world).spec_wf(),
            n == world.entities@.len(),
            n == old(world).entities@.len(),
            i <= n,
            world.next_id == old(world).next_id,
            world.spawn_timer_ms == old(world).spawn_timer_ms,
            scale == spec_map_scale(crate::world::spec_player_count(old(world).entities@) as int),
            forall|k: int| i <= k < n ==> #[trigger] world.entities@[k]
                == old(world).entities@[k],
            forall|k: int|
                0 <= k < i ==> #[trigger] world.entities@[k]
                    == (if old(world).entities@[k].data is Ground {
                    Entity {
                        transform: Transform {
                            scale_milli: scale,
                            ..old(world).entities@[k].transform
                        },
                        ..old(world).entities@[k]
                    }
                } else {
                    old(world).entities@[k]
                }),
        decreases n - i,
    {
        proof {
            assert(world.entities@[i as int] == old(world).entities@[i as int]);
            assert(world.entities@[i as int].spec_wf());
        }
        let e = world.entities[i];
        match e.data {
            EntityData::Ground => {
                let mut e2 = e;
                e2.transform.scale_milli = scale;
                let ghost s_pre = world.entities@;
                world.entities[i] = e2;
                proof {
                    let s = world.entities@;
                    assert(s == s_pre.update(i as int, e2));
                    assert forall|x: int, y: int| 0 <= x < y < s.len()
                        implies s[x].id != s[y].id by {
                        assert(s_pre[x].id != s_pre[y].id);
                    }
                    assert forall|x: int, y: int|
                        0 <= x < y < s.len() && s[x].spec_is_player() && s[y].spec_is_player()
                        implies s[x].spec_owner() != s[y].spec_owner() by {
                        assert(s_pre[x].spec_is_player() && s_pre[y].spec_is_player());
                        assert(s_pre[x].spec_owner() != s_pre[y].spec_owner());
                    }
                }
            },
            _ => {},
        }
        i = i + 1;
    }
}

/// The arena's static colliders: the ground slab just below the origin
/// and five trees around it.
pub open spec fn spec_arena_entities(next_id: u64) -> Seq<Entity> {
    seq![
        spec_static_entity(next_id, EntityData::Ground, -50i64, 0i64, 0i64),
        spec_static_entity((next_id + 1) as u64, EntityData::Tree, 0i64, 9520i64, 11200i64),
        spec_static_entity((next_id + 2) as u64, EntityData::Tree, 0i64, -10080i64, -10640i64),
        spec_static_entity((next_id + 3) as u64, EntityData::Tree, 0i64, -3360i64, -15400i64),
        spec_static_entity((next_id + 4) as u64, EntityData::Tree, 0i64, 15400i64, 220i64),
        spec_static_entity((next_id + 5) as u64, EntityData::Tree, 0i64, -14000i64, 150i64),
    ]
}

/// A world-fixed collider at rest.
pub open spec fn spec_static_entity(id: u64, data: EntityData, y: i64, x: i64, z: i64) -> Entity {
    Entity {
        id,
        data,
        transform: Transform {
            position: Vec3Milli { x, y, z },
            facing: crate::components::Facing { x_milli: 0, z_milli: -1000i64 },
            scale_milli: 1000,
        },
        velocity: Vec3Milli { x: 0, y: 0, z: 0 },
    }
}

/// Populate a fresh arena: the ground collider and the five trees,
/// replicated once at connect and immutable thereafter.
pub fn setup_arena(world: &mut World)
    requires
        old(world).spec_wf(),
        old(world).next_id + 6 <= u64::MAX,
    ensures
        final(world).spec_wf(),
        final(world).spawn_timer_ms == old(world).spawn_timer_ms,
        final(world).next_id == old(world).next_id + 6,
        final(world).entities@ == old(world).entities@ + spec_arena_entities(old(world).next_id),
{
    let ground = Transform::at_position(Vec3Milli { x: 0, y: -50, z: 0 });
    world.spawn(EntityData::Ground, ground);
    spawn_tree(world, 9520, 11200);
    spawn_tree(world, -10080, -10640);
    spawn_tree(world, -3360, -15400);
    spawn_tree(world, 15400, 220);
    spawn_tree(world, -14000, 150);
    proof {
        assert(final(world).entities@ =~= old(world).entities@ + spec_arena_entities(
            old(world).next_id,
        ));
    }
}

/// One static tree collider at ground level.
fn spawn_tree(world: &mut World, x: i64, z: i64)
    requires
        old(world).spec_wf(),
        old(world).next_id < u64::MAX,
        -1_000_000_000 <= x <= 1_000_000_000,
        -1_000_000_000 <= z <= 1_000_000_000,
    ensures
        final(world).spec_wf(),
        final(world).spawn_timer_ms == old(world).spawn_timer_ms,
        final(world).next_id == old(world).next_id + 1,
        final(world).entities@ == old(world).entities@.push(
            spec_static_entity(old(world).next_id, EntityData::Tree, 0, x, z),
        ),
{
    let t = Transform::at_position(Vec3Milli { x, y: 0, z });
    world.spawn(EntityData::Tree, t);
}

} // verus!
