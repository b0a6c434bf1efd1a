//! The canonical entity store: every live entity with its components,
//! written only by the tick pipeline.

use vstd::prelude::*;
use crate::components::{DamageFlash, Health, Transform};
use crate::units::{MAX_COORD_MILLI, SPAWN_HEIGHT_MILLI};
use crate::vec3::Vec3Milli;

verus! {

/// The components an entity owns, by entity kind.  No entity has more
/// than one component of a kind, so a kind fixes the full set.
#[derive(Clone, Copy, PartialEq, Eq, Structural, Debug)]
pub enum EntityData {
    /// A connected client's avatar.
    Player { owner: u64, health: Health, flash: DamageFlash },
    /// An AI-driven enemy.
    Zombie,
    /// The ground collider, replicated once.
    Ground,
    /// A static tree collider, replicated once.
    Tree,
}

impl EntityData {
    pub open spec fn spec_is_player(self) -> bool {
        self is Player
    }

    pub open spec fn spec_is_zombie(self) -> bool {
        self is Zombie
    }
}

/// One live entity: a stable id and its components.
#[derive(Clone, Copy, PartialEq, Eq, Structural, Debug)]
pub struct Entity {
    pub id: u64,
    pub data: EntityData,
    pub transform: Transform,
    pub velocity: Vec3Milli,
}

impl Entity {
    pub open spec fn spec_wf(self) -> bool {
        &&& self.transform.spec_wf()
        &&& self.velocity.spec_in_bounds()
        &&& match self.data {
            EntityData::Player { health, .. } => health.spec_wf(),
            _ => true,
        }
    }

    pub open spec fn spec_is_player(self) -> bool {
        self.data is Player
    }

    pub open spec fn spec_is_zombie(self) -> bool {
        self.data is Zombie
    }

    pub open spec fn spec_owner(self) -> u64
        recommends
            self.spec_is_player(),
    {
        self.data->Player_owner
    }

    pub open spec fn spec_health(self) -> Health
        recommends
            self.spec_is_player(),
    {
        self.data->Player_health
    }

    pub open spec fn spec_flash(self) -> DamageFlash
        recommends
            self.spec_is_player(),
    {
        self.data->Player_flash
    }

    pub fn is_player(&self) -> (r: bool)
        ensures
            r == self.spec_is_player(),
    {
        match self.data {
            EntityData::Player { .. } => true,
            _ => false,
        }
    }

    pub fn is_zombie(&self) -> (r: bool)
        ensures
            r == self.spec_is_zombie(),
    {
        match self.data {
            EntityData::Zombie => true,
            _ => false,
        }
    }
}

/// Entity ids are unique across the store.
pub open spec fn spec_ids_unique(s: Seq<Entity>) -> bool {
    forall|i: int, j: int|
        0 <= i < j < s.len() ==> s[i].id != s[j].id
}

/// Each connected client owns at most one player entity.
pub open spec fn spec_owners_unique(s: Seq<Entity>) -> bool {
    forall|i: int, j: int|
        0 <= i < j < s.len() && s[i].spec_is_player() && s[j].spec_is_player()
            ==> s[i].spec_owner() != s[j].spec_owner()
}

/// Some entity in `s` carries this id.
pub open spec fn spec_has_id(s: Seq<Entity>, id: u64) -> bool {
    exists|i: int| 0 <= i < s.len() && s[i].id == id
}

/// Some player in `s` is owned by this client.
pub open spec fn spec_has_owner(s: Seq<Entity>, client_id: u64) -> bool {
    exists|i: int|
        0 <= i < s.len() && s[i].spec_is_player() && s[i].spec_owner() == client_id
}

/// Number of live zombies.
pub open spec fn spec_zombie_count(s: Seq<Entity>) -> nat {
    s.filter(|e: Entity| e.spec_is_zombie()).len()
}

/// Number of live players.
pub open spec fn spec_player_count(s: Seq<Entity>) -> nat {
    s.filter(|e: Entity| e.spec_is_player()).len()
}

/// In a well-formed world every player's health lies within
/// `[0, max]`, whatever the tick did to it.
pub proof fn lemma_wf_health_bounds(w: World)
    requires
        w.spec_wf(),
    ensures
        forall|i: int|
            0 <= i < w.entities@.len() && (#[trigger] w.entities@[i]).spec_is_player()
                ==> 0 <= w.entities@[i].spec_health().current
                <= w.entities@[i].spec_health().max,
{
}

/// Entity ids are never reused: every id at or above the counter is
/// fresh, so once an entity is despawned no later spawn can resurrect
/// its id, and a subscriber on an ordered channel can never see a
/// despawn before the spawn it refers to.
pub proof fn lemma_ids_are_fresh(w: World, id: u64)
    requires
        w.spec_wf(),
        id >= w.next_id,
    ensures
        !spec_has_id(w.entities@, id),
{
}

/// Removing entities keeps ids and owners unique, and every survivor is
/// one of the input entities.
pub proof fn lemma_filter_keeps_invariants(s: Seq<Entity>, p: spec_fn(Entity) -> bool)
    ensures
        spec_ids_unique(s) ==> spec_ids_unique(s.filter(p)),
        spec_owners_unique(s) ==> spec_owners_unique(s.filter(p)),
        forall|i: int| 0 <= i < s.filter(p).len() ==> s.contains(#[trigger] s.filter(p)[i]),
    decreases s.len(),
{
    reveal(Seq::filter);
    if s.len() == 0 {
    } else {
        let t = s.drop_last();
        lemma_filter_keeps_invariants(t, p);
        assert forall|i: int, j: int| 0 <= i < j < t.len() implies t[i].id == s[i].id
            && t[j].id == s[j].id by {}
        assert(spec_ids_unique(s) ==> spec_ids_unique(t));
        assert(spec_owners_unique(s) ==> spec_owners_unique(t));
        let f = s.filter(p);
        let ft = t.filter(p);
        assert forall|i: int| 0 <= i < ft.len() implies s.contains(#[trigger] ft[i]) by {
            assert(t.contains(ft[i]));
            let k = choose|k: int| 0 <= k < t.len() && t[k] == ft[i];
            assert(s[k] == ft[i]);
        }
        if p(s.last()) {
            assert(f == ft.push(s.last()));
            assert forall|i: int| 0 <= i < f.len() implies s.contains(#[trigger] f[i]) by {
                if i < ft.len() {
                    assert(s.contains(ft[i]));
                } else {
                    assert(f[i] == s[s.len() - 1]);
                }
            }
            if spec_ids_unique(s) {
                assert forall|i: int, j: int| 0 <= i < j < f.len() implies f[i].id != f[j].id by {
                    if j < ft.len() {
                        assert(ft[i].id != ft[j].id);
                    } else {
                        assert(t.contains(f[i]));
                        let k = choose|k: int| 0 <= k < t.len() && t[k] == f[i];
                        assert(s[k].id != s[s.len() - 1].id);
                    }
                }
            }
            if spec_owners_unique(s) {
                assert forall|i: int, j: int|
                    0 <= i < j < f.len() && f[i].spec_is_player() && f[j].spec_is_player()
                    implies f[i].spec_owner() != f[j].spec_owner() by {
                    if j < ft.len() {
                    } else {
                        assert(t.contains(f[i]));
                        let k = choose|k: int| 0 <= k < t.len() && t[k] == f[i];
                        assert(s[k].spec_owner() != s[s.len() - 1].spec_owner());
                    }
                }
            }
        } else {
            assert(f == ft);
        }
    }
}

/// The canonical world state: the entity table, the id counter, and the
/// zombie spawn timer.
pub struct World {
    pub entities: Vec<Entity>,
    pub next_id: u64,
    pub spawn_timer_ms: u32,
}

impl World {
    /// Well-formedness: every entity in bounds, ids fresh and unique,
    /// one owner per player.
    pub open spec fn spec_wf(self) -> bool {
        &&& forall|i: int| 0 <= i < self.entities@.len() ==> (#[trigger] self.entities@[i]).spec_wf()
        &&& forall|i: int|
            0 <= i < self.entities@.len() ==> (#[trigger] self.entities@[i]).id < self.next_id
        &&& spec_ids_unique(self.entities@)
        &&& spec_owners_unique(self.entities@)
    }

    /// An empty world.
    pub fn new() -> (r: World)
        ensures
            r.spec_wf(),
            r.entities@.len() == 0,
            r.next_id == 0,
            r.spawn_timer_ms == 0,
    {
        World { entities: Vec::new(), next_id: 0, spawn_timer_ms: 0 }
    }

    /// Append a fresh entity under the next free id and return that id.
    pub fn spawn(&mut self, data: EntityData, transform: Transform) -> (id: u64)
        requires
            old(self).spec_wf(),
            old(self).next_id < u64::MAX,
            transform.spec_wf(),
            (data matches EntityData::Player { health, .. } ==> health.spec_wf()),
            (data matches EntityData::Player { owner, .. }
                ==> !spec_has_owner(old(self).entities@, owner)),
        ensures
            final(self).spec_wf(),
            id == old(self).next_id,
            final(self).next_id == old(self).next_id + 1,
            final(self).spawn_timer_ms == old(self).spawn_timer_ms,
            final(self).entities@ == old(self).entities@.push(
                Entity { id, data, transform, velocity: Vec3Milli { x: 0, y: 0, z: 0 } },
            ),
    {
        let id: u64 = self.next_id;
        let e = Entity {
            id,
            data,
            transform,
            velocity: Vec3Milli { x: 0, y: 0, z: 0 },
        };
        self.entities.push(e);
        self.next_id = self.next_id + 1;
        proof {
            let s = self.entities@;
            assert forall|i: int, j: int| 0 <= i < j < s.len() implies s[i].id != s[j].id by {
                if j < s.len() - 1 {
                    assert(old(self).entities@[i].id != old(self).entities@[j].id);
                }
            }
        }
        id
    }

    /// Index of the entity with this id, if it is live.
    pub fn find_by_id(&self, id: u64) -> (r: Option<usize>)
        ensures
            match r {
                Some(i) => i < self.entities@.len() && self.entities@[i as int].id == id,
                None => !spec_has_id(self.entities@, id),
            },
    {
        let mut i: usize = 0;
        while i < self.entities.len()
            invariant
                i <= self.entities@.len(),
                forall|k: int| 0 <= k < i ==> (#[trigger] self.entities@[k]).id != id,
            decreases self.entities@.len() - i,
        {
            if self.entities[i].id == id {
                return Some(i);
            }
            i = i + 1;
        }
        None
    }

    /// Index of the player entity owned by this client, if any.
    pub fn find_player_by_owner(&self, client_id: u64) -> (r: Option<usize>)
        ensures
            match r {
                Some(i) => i < self.entities@.len() && self.entities@[i as int].spec_is_player()
                    && self.entities@[i as int].spec_owner() == client_id,
                None => !spec_has_owner(self.entities@, client_id),
            },
    {
        let mut i: usize = 0;
        while i < self.entities.len()
            invariant
                i <= self.entities@.len(),
                forall|k: int|
                    0 <= k < i ==> !((#[trigger] self.entities@[k]).spec_is_player()
                        && self.entities@[k].spec_owner() == client_id),
            decreases self.entities@.len() - i,
        {
            let e = &self.entities[i];
            match e.data {
                EntityData::Player { owner, .. } => {
                    if owner == client_id {
                        return Some(i);
                    }
                },
                _ => {},
            }
            i = i + 1;
        }
        None
    }

    /// Number of live zombies.
    pub fn zombie_count(&self) -> (r: usize)
        ensures
            r == spec_zombie_count(self.entities@),
    {
        broadcast use vstd::seq_lib::group_seq_properties;

        let mut i: usize = 0;
        let mut n: usize = 0;
        proof {
            assert(self.entities@.take(0) =~= Seq::<Entity>::empty());
            reveal(Seq::filter);
        }
        while i < self.entities.len()
            invariant
                i <= self.entities@.len(),
                n == spec_zombie_count(self.entities@.take(i as int)),
                n <= i,
            decreases self.entities@.len() - i,
        {
            proof {
                assert(self.entities@.take(i + 1).drop_last() =~= self.entities@.take(i as int));
                reveal(Seq::filter);
            }
            if self.entities[i].is_zombie() {
                n = n + 1;
            }
            i = i + 1;
        }
        proof {
            assert(self.entities@.take(self.entities@.len() as int) =~= self.entities@);
        }
        n
    }

    /// Number of live players.
    pub fn player_count(&self) -> (r: usize)
        ensures
            r == spec_player_count(self.entities@),
    {
        broadcast use vstd::seq_lib::group_seq_properties;

        let mut i: usize = 0;
        let mut n: usize = 0;
        proof {
            assert(self.entities@.take(0) =~= Seq::<Entity>::empty());
            reveal(Seq::filter);
        }
        while i < self.entities.len()
            invariant
                i <= self.entities@.len(),
                n == spec_player_count(self.entities@.take(i as int)),
                n <= i,
            decreases self.entities@.len() - i,
        {
            proof {
                assert(self.entities@.take(i + 1).drop_last() =~= self.entities@.take(i as int));
                reveal(Seq::filter);
            }
            if self.entities[i].is_player() {
                n = n + 1;
            }
            i = i + 1;
        }
        proof {
            assert(self.entities@.take(self.entities@.len() as int) =~= self.entities@);
        }
        n
    }

    /// Overwrite the position of the entity with this id, as read back
    /// from the rigid-body collaborator.  An out-of-bounds position or
    /// an unknown id degrades to no effect.
    pub fn set_entity_position(&mut self, id: u64, position: Vec3Milli) -> (applied: bool)
        requires
            old(self).spec_wf(),
        ensures
            final(self).spec_wf(),
            final(self).next_id == old(self).next_id,
            final(self).spawn_timer_ms == old(self).spawn_timer_ms,
            applied == (spec_has_id(old(self).entities@, id) && position.spec_in_bounds()),
            !applied ==> final(self).entities@ == old(self).entities@,
            applied ==> exists|i: int|
                0 <= i < old(self).entities@.len() && old(self).entities@[i].id == id
                    && final(self).entities@ == old(self).entities@.update(
                    i,
                    Entity {
                        transform: Transform {
                            position,
                            ..old(self).entities@[i].transform
                        },
                        ..old(self).entities@[i]
                    },
                ),
    {
        if !position.in_bounds() {
            return false;
        }
        let found = self.find_by_id(id);
        match found {
            None => false,
            Some(i) => {
                let mut e = self.entities[i];
                e.transform.position = position;
                self.entities[i] = e;
                proof {
                    let s = final(self).entities@;
                    assert forall|a: int, b: int| 0 <= a < b < s.len() implies s[a].id != s[b].id
                    by {
                        assert(old(self).entities@[a].id != old(self).entities@[b].id);
                    }
                    assert forall|a: int, b: int|
                        0 <= a < b < s.len() && s[a].spec_is_player() && s[b].spec_is_player()
                        implies s[a].spec_owner() != s[b].spec_owner() by {
                        assert(old(self).entities@[a].spec_owner()
                            != old(self).entities@[b].spec_owner());
                    }
                }
                true
            },
        }
    }

    /// A trivial stand-in for the rigid-body collaborator: every entity
    /// advances by its velocity over the elapsed time, each coordinate
    /// clamped to the world bound.  Facing, scale and velocities are
    /// untouched.
    pub fn integrate(&mut self, dt_ms: u32)
        requires
            old(self).spec_wf(),
            dt_ms <= crate::units::MAX_TICK_MS,
        ensures
            final(self).spec_wf(),
            final(self).next_id == old(self).next_id,
            final(self).spawn_timer_ms == old(self).spawn_timer_ms,
            final(self).entities@.len() == old(self).entities@.len(),
            forall|i: int|
                0 <= i < old(self).entities@.len() ==> #[trigger] final(self).entities@[i]
                    == (Entity {
                    transform: Transform {
                        position: spec_integrated(
                            old(self).entities@[i].transform.position,
                            old(self).entities@[i].velocity,
                            dt_ms as int,
                        ),
                        ..old(self).entities@[i].transform
                    },
                    ..old(self).entities@[i]
                }),
    {
        let n = self.entities.len();
        let mut i: usize = 0;
        while i < n
            invariant
                n == self.entities@.len(),
                n == old(self).entities@.len(),
                i <= n,
                old(self).spec_wf(),
                self.next_id == old(self).next_id,
                self.spawn_timer_ms == old(self).spawn_timer_ms,
                dt_ms <= crate::units::MAX_TICK_MS,
                forall|k: int| i <= k < n ==> #[trigger] self.entities@[k]
                    == old(self).entities@[k],
                forall|k: int|
                    0 <= k < i ==> #[trigger] self.entities@[k] == (Entity {
                        transform: Transform {
                            position: spec_integrated(
                                old(self).entities@[k].transform.position,
                                old(self).entities@[k].velocity,
                                dt_ms as int,
                            ),
                            ..old(self).entities@[k].transform
                        },
                        ..old(self).entities@[k]
                    }),
            decreases n - i,
        {
            proof {
                assert(self.entities@[i as int] == old(self).entities@[i as int]);
                assert(old(self).entities@[i as int].spec_wf());
            }
            let mut e = self.entities[i];
            e.transform.position = advance_position(e.transform.position, e.velocity, dt_ms);
            self.entities[i] = e;
            i = i + 1;
        }
        proof {
            let s = final(self).entities@;
            assert forall|a: int, b: int| 0 <= a < b < s.len() implies s[a].id != s[b].id by {
                assert(old(self).entities@[a].id != old(self).entities@[b].id);
            }
            assert forall|a: int, b: int|
                0 <= a < b < s.len() && s[a].spec_is_player() && s[b].spec_is_player()
                implies s[a].spec_owner() != s[b].spec_owner() by {
                assert(old(self).entities@[a].spec_owner() != old(self).entities@[b].spec_owner());
            }
        }
    }
}

/// One coordinate advanced by `v * dt / 1000` (rounded toward zero) and
/// clamped to the world bound.
pub open spec fn spec_advanced_coord(p: int, v: int, dt_ms: int) -> int {
    let moved = p + crate::vec3::spec_scaled(v, dt_ms, 1000);
    if moved > MAX_COORD_MILLI as int {
        MAX_COORD_MILLI as int
    } else if moved < -MAX_COORD_MILLI as int {
        -MAX_COORD_MILLI as int
    } else {
        moved
    }
}

/// A position advanced by a velocity over `dt_ms`, clamped to bounds.
pub open spec fn spec_integrated(p: Vec3Milli, v: Vec3Milli, dt_ms: int) -> Vec3Milli {
    Vec3Milli {
        x: spec_advanced_coord(p.x as int, v.x as int, dt_ms) as i64,
        y: spec_advanced_coord(p.y as int, v.y as int, dt_ms) as i64,
        z: spec_advanced_coord(p.z as int, v.z as int, dt_ms) as i64,
    }
}

fn advance_coord(p: i64, v: i64, dt_ms: u32) -> (r: i64)
    requires
        -MAX_COORD_MILLI <= p <= MAX_COORD_MILLI,
        -MAX_COORD_MILLI <= v <= MAX_COORD_MILLI,
        dt_ms <= crate::units::MAX_TICK_MS,
    ensures
        r == spec_advanced_coord(p as int, v as int, dt_ms as int),
        -MAX_COORD_MILLI <= r <= MAX_COORD_MILLI,
{
    let mag: u64 = if v >= 0 { v as u64 } else { (-v) as u64 };
    proof {
        assert(mag * dt_ms <= 1_000_000_000u64 * 60_000u64) by (nonlinear_arith)
            requires mag <= 1_000_000_000u64, dt_ms <= 60_000u32;
        vstd::arithmetic::div_mod::lemma_div_pos_is_pos((mag * dt_ms) as int, 1000);
        vstd::arithmetic::div_mod::lemma_div_is_ordered(
            (mag * dt_ms) as int,
            1_000_000_000int * 60_000int,
            1000,
        );
    }
    let step_mag: u64 = mag * (dt_ms as u64) / 1000;
    let step: i64 = if v >= 0 { step_mag as i64 } else { -(step_mag as i64) };
    let moved: i64 = p + step;
    if moved > MAX_COORD_MILLI {
        MAX_COORD_MILLI
    } else if moved < -MAX_COORD_MILLI {
        -MAX_COORD_MILLI
    } else {
        moved
    }
}

/// Advance a whole position vector; exported for the surrounding
/// program's use as a degenerate integrator.
pub fn advance_position(p: Vec3Milli, v: Vec3Milli, dt_ms: u32) -> (r: Vec3Milli)
    requires
        p.spec_in_bounds(),
        v.spec_in_bounds(),
        dt_ms <= crate::units::MAX_TICK_MS,
    ensures
        r == spec_integrated(p, v, dt_ms as int),
        r.spec_in_bounds(),
{
    Vec3Milli {
        x: advance_coord(p.x, v.x, dt_ms),
        y: advance_coord(p.y, v.y, dt_ms),
        z: advance_coord(p.z, v.z, dt_ms),
    }
}

/// The default spawn point of a player: on the arena centre, just above
/// the ground.
pub fn player_spawn_point() -> (r: Vec3Milli)
    ensures
        r == (Vec3Milli { x: 0, y: SPAWN_HEIGHT_MILLI, z: 0 }),
        r.spec_in_bounds(),
{
    Vec3Milli { x: 0, y: SPAWN_HEIGHT_MILLI, z: 0 }
}

} // verus!
