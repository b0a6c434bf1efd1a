//! The combat resolver: per-tick proximity damage from zombies to
//! players, action damage and zombie kills from attack commands, and the
//! countdown of the damage-flash indicator.

use vstd::prelude::*;
use crate::components::{DamageFlash, Health};
use crate::units::{ATTACK_RANGE_MILLI, COLLISION_DISTANCE_MILLI, DAMAGE_PER_MS_MILLI,
    FLASH_DURATION_MS, MAX_TICK_MS, PLAYER_DAMAGE_MILLI};
use crate::vec3::{dist_sq, spec_dist_sq, sq, Vec3Milli};
use crate::world::{lemma_filter_keeps_invariants, spec_has_owner, Entity, EntityData, World};

verus! {

/// Proximity damage accrued over one tick of contact, in milli-points.
pub open spec fn spec_tick_damage(dt_ms: int) -> int {
    DAMAGE_PER_MS_MILLI * dt_ms
}

/// The zombie `z` stands in damaging contact with position `pos`.
pub open spec fn spec_in_contact(z: Entity, pos: Vec3Milli) -> bool {
    z.spec_is_zombie() && spec_dist_sq(z.transform.position, pos) < sq(
        COLLISION_DISTANCE_MILLI as int,
    )
}

/// How many zombies stand in damaging contact with `pos`.
pub open spec fn spec_contact_count(s: Seq<Entity>, pos: Vec3Milli) -> nat {
    s.filter(|z: Entity| spec_in_contact(z, pos)).len()
}

/// A health value after absorbing `amount`, clamped at zero.
pub open spec fn spec_damaged_health(h: Health, amount: int) -> Health {
    Health {
        current: if h.current - amount >= 0 {
            (h.current - amount) as u32
        } else {
            0u32
        },
        max: h.max,
    }
}

/// A player entity after the proximity pass: each zombie in contact
/// deals one tick of damage and rewinds the flash, but a player already
/// at zero health receives nothing.
pub open spec fn spec_prox_player(s: Seq<Entity>, e: Entity, dt_ms: int) -> Entity {
    let k = spec_contact_count(s, e.transform.position);
    if e.spec_is_player() && e.spec_health().current > 0 && k > 0 {
        Entity {
            data: EntityData::Player {
                owner: e.spec_owner(),
                health: spec_damaged_health(e.spec_health(), k * spec_tick_damage(dt_ms)),
                flash: DamageFlash { timer_ms: FLASH_DURATION_MS },
            },
            ..e
        }
    } else {
        e
    }
}

/// Count the zombies in damaging contact with `pos`.
fn contact_count(world: &World, pos: Vec3Milli) -> (r: usize)
    requires
        world.spec_wf(),
        pos.spec_in_bounds(),
    ensures
        r == spec_contact_count(world.entities@, pos),
        r <= world.entities@.len(),
{
    broadcast use vstd::seq_lib::group_seq_properties;

    let n = world.entities.len();
    let mut i: usize = 0;
    let mut c: usize = 0;
    proof {
        assert(world.entities@.take(0) =~= Seq::<Entity>::empty());
        reveal(Seq::filter);
    }
    while i < n
        invariant
            world.spec_wf(),
            pos.spec_in_bounds(),
            n == world.entities@.len(),
            i <= n,
            c <= i,
            c == spec_contact_count(world.entities@.take(i as int), pos),
        decreases n - i,
    {
        proof {
            assert(world.entities@.take(i + 1).drop_last() =~= world.entities@.take(i as int));
            reveal(Seq::filter);
            assert(world.entities@[i as int].spec_wf());
        }
        let e = &world.entities[i];
        if e.is_zombie() {
            let d = dist_sq(e.transform.position, pos);
            if d < (COLLISION_DISTANCE_MILLI * COLLISION_DISTANCE_MILLI) as u64 {
                c = c + 1;
            }
        }
        i = i + 1;
    }
    proof {
        assert(world.entities@.take(n as int) =~= world.entities@);
    }
    c
}

/// Clamped damage for `k` simultaneous zombie contacts over one tick:
/// the lesser of `k` ticks of damage and the health that is left.
fn clamped_contact_damage(current: u32, k: usize, dt_ms: u32) -> (r: u32)
    requires
        dt_ms <= MAX_TICK_MS,
    ensures
        r as int == if (k as int) * spec_tick_damage(dt_ms as int) <= current as int {
            (k as int) * spec_tick_damage(dt_ms as int)
        } else {
            current as int
        },
{
    let d: u64 = (DAMAGE_PER_MS_MILLI as u64) * (dt_ms as u64);
    proof {
        assert(d == spec_tick_damage(dt_ms as int));
    }
    if d == 0 {
        proof {
            assert((k as int) * 0 == 0) by (nonlinear_arith);
        }
        return 0;
    }
    if k as u64 > 5_000_000_000u64 {
        proof {
            assert((k as int) * (d as int) >= (k as int) * 1) by (nonlinear_arith)
                requires d >= 1, k as int >= 0;
        }
        return current;
    }
    proof {
        assert((k as u64) * d <= 5_000_000_000u64 * 600_000u64) by (nonlinear_arith)
            requires k as u64 <= 5_000_000_000u64, d <= 600_000u64;
    }
    let kd: u64 = (k as u64) * d;
    if kd >= current as u64 {
        current
    } else {
        kd as u32
    }
}

/// Contact counting depends only on entity kinds and positions.
proof fn lemma_contact_count_transfer(s1: Seq<Entity>, s2: Seq<Entity>, pos: Vec3Milli)
    requires
        s1.len() == s2.len(),
        forall|k: int|
            0 <= k < s1.len() ==> ((#[trigger] s1[k]).spec_is_zombie()
                == s2[k].spec_is_zombie()) && s1[k].transform.position
                == s2[k].transform.position,
    ensures
        spec_contact_count(s1, pos) == spec_contact_count(s2, pos),
    decreases s1.len(),
{
    reveal(Seq::filter);
    if s1.len() > 0 {
        assert forall|k: int| 0 <= k < s1.len() - 1
            implies ((#[trigger] s1.drop_last()[k]).spec_is_zombie()
                == s2.drop_last()[k].spec_is_zombie())
                && s1.drop_last()[k].transform.position
                == s2.drop_last()[k].transform.position by {
            assert(s1[k].spec_is_zombie() == s2[k].spec_is_zombie());
        }
        lemma_contact_count_transfer(s1.drop_last(), s2.drop_last(), pos);
        assert(s1.last() == s1[s1.len() - 1] && s2.last() == s2[s1.len() - 1]);
        assert(spec_in_contact(s1.last(), pos) == spec_in_contact(s2.last(), pos));
    }
}

/// The proximity pass: every (zombie, player) pair in contact deals one
/// tick of damage, clamped at zero, and rewinds the player's flash; a
/// player already at zero health is skipped.
#[verifier::rlimit(60)]
pub fn proximity_damage(world: &mut World, dt_ms: u32)
    requires
        old(world).spec_wf(),
        dt_ms <= MAX_TICK_MS,
    ensures
        final(world).spec_wf(),
        final(world).next_id == old(world).next_id,
        final(world).spawn_timer_ms == old(world).spawn_timer_ms,
        final(world).entities@.len() == old(world).entities@.len(),
        forall|i: int|
            0 <= i < old(world).entities@.len() ==> #[trigger] final(world).entities@[i]
                == spec_prox_player(old(world).entities@, old(world).entities@[i], dt_ms as int),
{
    let n = world.entities.len();
    let mut i: usize = 0;
    while i < n
        invariant
            world.spec_wf(),
            dt_ms <= MAX_TICK_MS,
            n == world.entities@.len(),
            n == old(world).entities@.len(),
            i <= n,
            old(world).spec_wf(),
            world.next_id == old(world).next_id,
            world.spawn_timer_ms == old(world).spawn_timer_ms,
            forall|k: int| i <= k < n ==> #[trigger] world.entities@[k]
                == old(world).entities@[k],
            forall|k: int|
                0 <= k < i ==> #[trigger] world.entities@[k] == spec_prox_player(
                    old(world).entities@,
                    old(world).entities@[k],
                    dt_ms as int,
                ),
            forall|k: int|
                0 <= k < n ==> ((#[trigger] world.entities@[k]).spec_is_zombie()
                    == old(world).entities@[k].spec_is_zombie())
                    && world.entities@[k].transform.position
                    == old(world).entities@[k].transform.position,
        decreases n - i,
    {
        proof {
            assert(world.entities@[i as int] == old(world).entities@[i as int]);
            assert(world.entities@[i as int].spec_wf());
        }
        let e = world.entities[i];
        let mut is_live_player: bool = false;
        let mut cur: u32 = 0;
        match e.data {
            EntityData::Player { health, .. } => {
                if health.current > 0 {
                    is_live_player = true;
                    cur = health.current;
                }
            },
            _ => {},
        }
        if is_live_player {
            let k = contact_count(world, e.transform.position);
            proof {
                lemma_contact_count_transfer(
                    world.entities@,
                    old(world).entities@,
                    e.transform.position,
                );
            }
            if k > 0 {
                let dmg = clamped_contact_damage(cur, k, dt_ms);
                let mut e2 = e;
                match e.data {
                    EntityData::Player { owner, health, .. } => {
                        let mut h2 = health;
                        h2.apply_damage(dmg);
                        e2.data = EntityData::Player {
                            owner,
                            health: h2,
                            flash: DamageFlash { timer_ms: FLASH_DURATION_MS },
                        };
                    },
                    _ => {},
                }
                let ghost s_pre = world.entities@;
                world.entities[i] = e2;
                proof {
                    assert(e2 == spec_prox_player(
                        old(world).entities@,
                        old(world).entities@[i as int],
                        dt_ms as int,
                    ));
                    let s = world.entities@;
                    assert(s == s_pre.update(i as int, e2));
                    assert(e2.id == s_pre[i as int].id);
                    assert(e2.spec_is_player() && s_pre[i as int].spec_is_player()
                        && e2.spec_owner() == s_pre[i as int].spec_owner());
                    assert forall|a: int, b: int| 0 <= a < b < s.len()
                        implies s[a].id != s[b].id by {
                        assert(s_pre[a].id != s_pre[b].id);
                    }
                    assert forall|a: int, b: int|
                        0 <= a < b < s.len() && s[a].spec_is_player() && s[b].spec_is_player()
                        implies s[a].spec_owner() != s[b].spec_owner() by {
                        assert(s_pre[a].spec_is_player() && s_pre[b].spec_is_player());
                        assert(s_pre[a].spec_owner() != s_pre[b].spec_owner());
                    }
                }
            }
        }
        i = i + 1;
    }
}

/// After the proximity pass every player's health still lies within
/// `[0, max]`, and it never grew.
pub proof fn lemma_prox_health_in_range(s: Seq<Entity>, e: Entity, dt_ms: int)
    requires
        e.spec_wf(),
        e.spec_is_player(),
        0 <= dt_ms,
    ensures
        spec_prox_player(s, e, dt_ms).spec_health().max == e.spec_health().max,
        0 <= spec_prox_player(s, e, dt_ms).spec_health().current <= e.spec_health().max,
        spec_prox_player(s, e, dt_ms).spec_health().current <= e.spec_health().current,
{
    let k = spec_contact_count(s, e.transform.position);
    vstd::arithmetic::mul::lemma_mul_nonnegative(k as int, spec_tick_damage(dt_ms));
}


/// Action damage obeys the same clamp: after an attack hit the
/// victim's health is still within `[0, max]`, and it never grew.
pub proof fn lemma_attack_health_in_range(e: Entity, apos: Vec3Milli)
    requires
        e.spec_wf(),
        e.spec_is_player(),
    ensures
        spec_attack_hit(e, apos).spec_health().max == e.spec_health().max,
        0 <= spec_attack_hit(e, apos).spec_health().current <= e.spec_health().max,
        spec_attack_hit(e, apos).spec_health().current <= e.spec_health().current,
{
}

/// `pos` lies within attack range of an attacker standing at `apos`.
pub open spec fn spec_in_attack_range(pos: Vec3Milli, apos: Vec3Milli) -> bool {
    spec_dist_sq(apos, pos) < sq(ATTACK_RANGE_MILLI as int)
}

/// A player caught in another player's attack takes the fixed action
/// damage, clamped at zero, and flashes; everything else is untouched.
pub open spec fn spec_attack_hit(e: Entity, apos: Vec3Milli) -> Entity {
    if e.spec_is_player() && spec_in_attack_range(e.transform.position, apos) {
        Entity {
            data: EntityData::Player {
                owner: e.spec_owner(),
                health: spec_damaged_health(e.spec_health(), PLAYER_DAMAGE_MILLI as int),
                flash: DamageFlash { timer_ms: FLASH_DURATION_MS },
            },
            ..e
        }
    } else {
        e
    }
}

/// The entity table after the attacker at index `a` has damaged every
/// other player within range; the attacker itself is spared.
pub open spec fn spec_attack_damaged(s: Seq<Entity>, a: int) -> Seq<Entity> {
    Seq::new(
        s.len(),
        |i: int|
            if i == a {
                s[i]
            } else {
                spec_attack_hit(s[i], s[a].transform.position)
            },
    )
}

/// Zombies within range of the attacker are despawned; everything else
/// survives.
pub open spec fn spec_attack_survives(e: Entity, apos: Vec3Milli) -> bool {
    !(e.spec_is_zombie() && spec_in_attack_range(e.transform.position, apos))
}

/// The full effect of one attack by the player at index `a`.
pub open spec fn spec_after_attack(s: Seq<Entity>, a: int) -> Seq<Entity> {
    spec_attack_damaged(s, a).filter(
        |e: Entity| spec_attack_survives(e, s[a].transform.position),
    )
}

/// The index of the player entity owned by `client_id`; owners being
/// unique, there is at most one.
pub open spec fn spec_owner_index(s: Seq<Entity>, client_id: u64) -> int {
    choose|i: int|
        0 <= i < s.len() && (#[trigger] s[i]).spec_is_player()
            && s[i].spec_owner() == client_id
}

/// One attack command resolved against the sender's own player, found
/// through the owner mapping; a sender without a live player is a no-op.
pub open spec fn spec_apply_attack(s: Seq<Entity>, client_id: u64) -> Seq<Entity> {
    if spec_has_owner(s, client_id) {
        spec_after_attack(s, spec_owner_index(s, client_id))
    } else {
        s
    }
}

/// A tick's attack commands resolved in arrival order.
pub open spec fn spec_after_attacks(s: Seq<Entity>, attacks: Seq<u64>) -> Seq<Entity>
    decreases attacks.len(),
{
    if attacks.len() == 0 {
        s
    } else {
        spec_after_attacks(spec_apply_attack(s, attacks.first()), attacks.drop_first())
    }
}

/// Damage every player but the attacker within attack range.
#[verifier::rlimit(60)]
fn attack_damage_pass(world: &mut World, a: usize)
    requires
        old(world).spec_wf(),
        a < old(world).entities@.len(),
        old(world).entities@[a as int].spec_is_player(),
    ensures
        final(world).spec_wf(),
        final(world).next_id == old(world).next_id,
        final(world).spawn_timer_ms == old(world).spawn_timer_ms,
        final(world).entities@ == spec_attack_damaged(old(world).entities@, a as int),
{
    let apos = world.entities[a].transform.position;
    proof {
        assert(old(world).entities@[a as int].spec_wf());
    }
    let n = world.entities.len();
    let mut j: usize = 0;
    while j < n
        invariant
            world.spec_wf(),
            old(world).spec_wf(),
            n == world.entities@.len(),
            n == old(world).entities@.len(),
            j <= n,
            a < n,
            world.next_id == old(world).next_id,
            world.spawn_timer_ms == old(world).spawn_timer_ms,
            apos == old(world).entities@[a as int].transform.position,
            forall|k: int| j <= k < n ==> #[trigger] world.entities@[k]
                == old(world).entities@[k],
            forall|k: int|
                0 <= k < j ==> #[trigger] world.entities@[k] == (if k == a as int {
                    old(world).entities@[k]
                } else {
                    spec_attack_hit(old(world).entities@[k], apos)
                }),
        decreases n - j,
    {
        proof {
            assert(world.entities@[j as int] == old(world).entities@[j as int]);
            assert(world.entities@[j as int].spec_wf());
        }
        if j != a {
            let e = world.entities[j];
            let mut hit: bool = false;
            match e.data {
                EntityData::Player { .. } => {
                    let d = dist_sq(apos, e.transform.position);
                    if d < (ATTACK_RANGE_MILLI * ATTACK_RANGE_MILLI) as u64 {
                        hit = true;
                    }
                },
                _ => {},
            }
            if hit {
                let mut e2 = e;
                match e.data {
                    EntityData::Player { owner, health, .. } => {
                        let mut h2 = health;
                        h2.apply_damage(PLAYER_DAMAGE_MILLI);
                        e2.data = EntityData::Player {
                            owner,
                            health: h2,
                            flash: DamageFlash { timer_ms: FLASH_DURATION_MS },
                        };
                    },
                    _ => {},
                }
                let ghost s_pre = world.entities@;
                world.entities[j] = e2;
                proof {
                    assert(e2 == spec_attack_hit(old(world).entities@[j as int], apos));
                    let s = world.entities@;
                    assert(s == s_pre.update(j as int, e2));
                    assert(e2.id == s_pre[j as int].id);
                    assert(e2.spec_is_player() && e2.spec_owner()
                        == s_pre[j as int].spec_owner());
                    assert forall|x: int, y: int| 0 <= x < y < s.len()
                        implies s[x].id != s[y].id by {
                        assert(s_pre[x].id != s_pre[y].id);
                    }
                    assert forall|x: int, y: int|
                        0 <= x < y < s.len() && s[x].spec_is_player() && s[y].spec_is_player()
                        implies s[x].spec_owner() != s[y].spec_owner() by {
                        assert(s_pre[x].spec_is_player() && s_pre[y].spec_is_player());
                        assert(s_pre[x].spec_owner() != s_pre[y].spec_owner());
                    }
                }
            }
        }
        j = j + 1;
    }
    proof {
        assert(final(world).entities@ =~= spec_attack_damaged(old(world).entities@, a as int));
    }
}

/// Despawn every zombie within attack range of `apos`.
fn remove_zombies_in_range(world: &mut World, apos: Vec3Milli)
    requires
        old(world).spec_wf(),
        apos.spec_in_bounds(),
    ensures
        final(world).spec_wf(),
        final(world).next_id == old(world).next_id,
        final(world).spawn_timer_ms == old(world).spawn_timer_ms,
        final(world).entities@ == old(world).entities@.filter(
            |e: Entity| spec_attack_survives(e, apos),
        ),
{
    broadcast use vstd::seq_lib::group_seq_properties;

    let ghost p = |e: Entity| spec_attack_survives(e, apos);
    let n = world.entities.len();
    let mut out: Vec<Entity> = Vec::new();
    let mut j: usize = 0;
    proof {
        assert(world.entities@.take(0) =~= Seq::<Entity>::empty());
        reveal(Seq::filter);
    }
    while j < n
        invariant
            world.spec_wf(),
            apos.spec_in_bounds(),
            n == world.entities@.len(),
            j <= n,
            out@ == world.entities@.take(j as int).filter(p),
            p == (|e: Entity| spec_attack_survives(e, apos)),
        decreases n - j,
    {
        proof {
            assert(world.entities@.take(j + 1).drop_last() =~= world.entities@.take(j as int));
            reveal(Seq::filter);
            assert(world.entities@[j as int].spec_wf());
        }
        let e = world.entities[j];
        let mut keep: bool = true;
        if e.is_zombie() {
            let d = dist_sq(apos, e.transform.position);
            if d < (ATTACK_RANGE_MILLI * ATTACK_RANGE_MILLI) as u64 {
                keep = false;
            }
        }
        if keep {
            out.push(e);
        }
        j = j + 1;
    }
    proof {
        assert(world.entities@.take(n as int) =~= world.entities@);
    }
    let ghost s0 = world.entities@;
    world.entities = out;
    proof {
        lemma_filter_keeps_invariants(s0, p);
        let f = s0.filter(p);
        assert forall|k: int| 0 <= k < f.len() implies (#[trigger] f[k]).spec_wf()
            && f[k].id < world.next_id by {
            assert(s0.contains(f[k]));
            let w = choose|w: int| 0 <= w < s0.len() && s0[w] == f[k];
            assert(s0[w].spec_wf() && s0[w].id < world.next_id);
        }
    }
}

/// Resolve one attack command: the sender's player, found through the
/// owner mapping, despawns every zombie within range and damages every
/// other player within range.  An unmapped sender is a no-op.
pub fn resolve_attack(world: &mut World, client_id: u64)
    requires
        old(world).spec_wf(),
    ensures
        final(world).spec_wf(),
        final(world).next_id == old(world).next_id,
        final(world).spawn_timer_ms == old(world).spawn_timer_ms,
        final(world).entities@ == spec_apply_attack(old(world).entities@, client_id),
{
    let found = world.find_player_by_owner(client_id);
    match found {
        None => {},
        Some(a) => {
            let ghost s0 = old(world).entities@;
            proof {
                let ci = spec_owner_index(s0, client_id);
                assert(spec_has_owner(s0, client_id));
                assert(0 <= ci < s0.len() && s0[ci].spec_is_player()
                    && s0[ci].spec_owner() == client_id);
                if ci != a as int {
                    assert(false);
                }
            }
            let apos = world.entities[a].transform.position;
            proof {
                assert(s0[a as int].spec_wf());
            }
            attack_damage_pass(world, a);
            remove_zombies_in_range(world, apos);
            proof {
                let damaged = spec_attack_damaged(s0, a as int);
                assert(damaged[a as int] == s0[a as int]);
                assert(final(world).entities@ == damaged.filter(
                    |e: Entity| spec_attack_survives(e, apos),
                ));
                assert(final(world).entities@ == spec_after_attack(s0, a as int));
            }
        },
    }
}

/// Resolve a tick's attack commands in arrival order.
pub fn resolve_attacks(world: &mut World, attacks: &Vec<u64>)
    requires
        old(world).spec_wf(),
    ensures
        final(world).spec_wf(),
        final(world).next_id == old(world).next_id,
        final(world).spawn_timer_ms == old(world).spawn_timer_ms,
        final(world).entities@ == spec_after_attacks(old(world).entities@, attacks@),
{
    let n = attacks.len();
    let mut i: usize = 0;
    proof {
        assert(attacks@.skip(0) =~= attacks@);
    }
    while i < n
        invariant
            world.spec_wf(),
            n == attacks@.len(),
            i <= n,
            world.next_id == old(world).next_id,
            world.spawn_timer_ms == old(world).spawn_timer_ms,
            spec_after_attacks(old(world).entities@, attacks@) == spec_after_attacks(
                world.entities@,
                attacks@.skip(i as int),
            ),
        decreases n - i,
    {
        proof {
            assert(attacks@.skip(i as int).first() == attacks@[i as int]);
            assert(attacks@.skip(i as int).drop_first() =~= attacks@.skip(i + 1));
        }
        resolve_attack(world, attacks[i]);
        i = i + 1;
    }
    proof {
        assert(attacks@.skip(n as int) =~= Seq::<u64>::empty());
    }
}

/// A player entity with its flash timer run down by the elapsed time.
pub open spec fn spec_flash_ticked(e: Entity, dt_ms: int) -> Entity {
    if e.spec_is_player() {
        Entity {
            data: EntityData::Player {
                owner: e.spec_owner(),
                health: e.spec_health(),
                flash: DamageFlash {
                    timer_ms: if e.spec_flash().timer_ms - dt_ms >= 0 {
                        (e.spec_flash().timer_ms - dt_ms) as u32
                    } else {
                        0u32
                    },
                },
            },
            ..e
        }
    } else {
        e
    }
}

/// Run elapsed time off every damage-flash timer, clamping at zero.
/// Timers only ever decrease here; only a damage event rewinds them.
pub fn update_damage_flash(world: &mut World, dt_ms: u32)
    requires
        old(world).spec_wf(),
    ensures
        final(world).spec_wf(),
        final(world).next_id == old(world).next_id,
        final(world).spawn_timer_ms == old(world).spawn_timer_ms,
        final(world).entities@.len() == old(world).entities@.len(),
        forall|i: int|
            0 <= i < old(world).entities@.len() ==> #[trigger] final(world).entities@[i]
                == spec_flash_ticked(old(world).entities@[i], dt_ms as int),
{
    let n = world.entities.len();
    let mut i: usize = 0;
    while i < n
        invariant
            world.spec_wf(),
            old(world).spec_wf(),
            n == world.entities@.len(),
            n == old(world).entities@.len(),
            i <= n,
            world.next_id == old(world).next_id,
            world.spawn_timer_ms == old(world).spawn_timer_ms,
            forall|k: int| i <= k < n ==> #[trigger] world.entities@[k]
                == old(world).entities@[k],
            forall|k: int|
                0 <= k < i ==> #[trigger] world.entities@[k] == spec_flash_ticked(
                    old(world).entities@[k],
                    dt_ms as int,
                ),
        decreases n - i,
    {
        proof {
            assert(world.entities@[i as int] == old(world).entities@[i as int]);
            assert(world.entities@[i as int].spec_wf());
        }
        let e = world.entities[i];
        match e.data {
            EntityData::Player { owner, health, flash } => {
                let mut f2 = flash;
                f2.count_down(dt_ms);
                let mut e2 = e;
                e2.data = EntityData::Player { owner, health, flash: f2 };
                let ghost s_pre = world.entities@;
                world.entities[i] = e2;
                proof {
                    assert(e2 == spec_flash_ticked(old(world).entities@[i as int], dt_ms as int));
                    let s = world.entities@;
                    assert(s == s_pre.update(i as int, e2));
                    assert forall|x: int, y: int| 0 <= x < y < s.len()
                        implies s[x].id != s[y].id by {
                        assert(s_pre[x].id != s_pre[y].id);
                    }
                    assert forall|x: int, y: int|
                        0 <= x < y < s.len() && s[x].spec_is_player() && s[y].spec_is_player()
                        implies s[x].spec_owner() != s[y].spec_owner() by {
                        assert(s_pre[x].spec_is_player() && s_pre[y].spec_is_player());
                        assert(s_pre[x].spec_owner() != s_pre[y].spec_owner());
                    }
                }
            },
            _ => {},
        }
        i = i + 1;
    }
}

} // verus!
