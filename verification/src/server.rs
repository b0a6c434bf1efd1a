//! The server: one struct holding the world and the per-client
//! replication views, driven by a fixed-tick pipeline — command intake,
//! movement intent, AI, the physics collaborator, combat, lifecycle,
//! replication.  One full tick is atomic: no partial effects are ever
//! encoded.

use vstd::prelude::*;
use crate::ai::{ai_step, spec_ai_applied};
use crate::combat::{proximity_damage, resolve_attacks, spec_after_attacks, spec_flash_ticked,
    spec_prox_player, update_damage_flash};
use crate::components::ClientCommand;
use crate::intake::{collate_commands, spec_attackers};
use crate::lifecycle::{connect_client, disconnect_client, reap, spec_after_reap,
    spec_reap_owners, spec_reap_removals, update_map_size, ReapMode, Removal};
use crate::movement::{apply_moves, lemma_collated_moves_agree, spec_move_stage};
use crate::replication::{encode_all, ClientPacket, ClientView, EntityRecord, spec_view_model};
use crate::units::{MAX_TICK_MS, ZOMBIE_SPAWN_INTERVAL_MS};
use crate::world::{spec_has_owner, Entity, World};

verus! {

/// A connection lifecycle event handed in by the transport collaborator.
#[derive(Clone, Copy, PartialEq, Eq, Structural, Debug)]
pub enum ConnectionEvent {
    Connected { client_id: u64 },
    Disconnected { client_id: u64 },
}

/// One event applied to the world: a connect spawns a player for a new
/// client, a disconnect reaps the client's player and logs the removal.
pub open spec fn spec_world_after_event(
    s: Seq<Entity>,
    next_id: int,
    ev: ConnectionEvent,
) -> (Seq<Entity>, int, Seq<Removal>) {
    match ev {
        ConnectionEvent::Connected { client_id } => {
            if spec_has_owner(s, client_id) {
                (s, next_id, Seq::empty())
            } else {
                (
                    s.push(crate::lifecycle::spec_spawned_player(next_id as u64, client_id)),
                    next_id + 1,
                    Seq::empty(),
                )
            }
        },
        ConnectionEvent::Disconnected { client_id } => {
            (
                spec_after_reap(s, ReapMode::Disconnected(client_id)),
                next_id,
                spec_reap_removals(s, ReapMode::Disconnected(client_id)),
            )
        },
    }
}

/// A tick's connection events applied in arrival order.
pub open spec fn spec_world_after_events(
    s: Seq<Entity>,
    next_id: int,
    evs: Seq<ConnectionEvent>,
) -> (Seq<Entity>, int, Seq<Removal>)
    decreases evs.len(),
{
    if evs.len() == 0 {
        (s, next_id, Seq::empty())
    } else {
        let head = spec_world_after_event(s, next_id, evs.first());
        let rest = spec_world_after_events(head.0, head.1, evs.drop_first());
        (rest.0, rest.1, head.2 + rest.2)
    }
}

/// One event applied to the subscriber views: a connect subscribes a
/// new client with an empty view, a disconnect unsubscribes it.
pub open spec fn spec_views_after_event(
    vm: Seq<(u64, Seq<EntityRecord>)>,
    ev: ConnectionEvent,
) -> Seq<(u64, Seq<EntityRecord>)> {
    match ev {
        ConnectionEvent::Connected { client_id } => {
            if exists|k: int| 0 <= k < vm.len() && (#[trigger] vm[k]).0 == client_id {
                vm
            } else {
                vm.push((client_id, Seq::empty()))
            }
        },
        ConnectionEvent::Disconnected { client_id } => {
            vm.filter(|p: (u64, Seq<EntityRecord>)| p.0 != client_id)
        },
    }
}

/// A tick's connection events applied to the views in arrival order.
pub open spec fn spec_views_after_events(
    vm: Seq<(u64, Seq<EntityRecord>)>,
    evs: Seq<ConnectionEvent>,
) -> Seq<(u64, Seq<EntityRecord>)>
    decreases evs.len(),
{
    if evs.len() == 0 {
        vm
    } else {
        spec_views_after_events(spec_views_after_event(vm, evs.first()), evs.drop_first())
    }
}

/// The authoritative server state between ticks.
pub struct ServerState {
    pub world: World,
    pub views: Vec<ClientView>,
    pub pending_attacks: Vec<u64>,
    pub removals: Vec<Removal>,
}

impl ServerState {
    pub open spec fn spec_wf(self) -> bool {
        &&& self.world.spec_wf()
        &&& forall|k: int| 0 <= k < self.views@.len() ==> (#[trigger] self.views@[k]).spec_wf()
        &&& forall|i: int, j: int|
            0 <= i < j < self.views@.len() ==> self.views@[i].client_id
                != self.views@[j].client_id
    }

    /// The subscriber views as a mathematical value.
    pub open spec fn spec_views(self) -> Seq<(u64, Seq<EntityRecord>)> {
        spec_view_model(self.views@)
    }

    /// A fresh server with an empty world and no subscribers.
    pub fn new() -> (r: ServerState)
        ensures
            r.spec_wf(),
            r.world.entities@.len() == 0,
            r.world.next_id == 0,
            r.world.spawn_timer_ms == 0,
            r.views@.len() == 0,
            r.pending_attacks@.len() == 0,
            r.removals@.len() == 0,
    {
        ServerState {
            world: World::new(),
            views: Vec::new(),
            pending_attacks: Vec::new(),
            removals: Vec::new(),
        }
    }
}

/// Subscribe a connecting client with an empty view, unless it is
/// already subscribed.
fn view_connect(views: &mut Vec<ClientView>, client_id: u64)
    requires
        forall|k: int| 0 <= k < old(views)@.len() ==> (#[trigger] old(views)@[k]).spec_wf(),
        forall|i: int, j: int|
            0 <= i < j < old(views)@.len() ==> old(views)@[i].client_id
                != old(views)@[j].client_id,
    ensures
        forall|k: int| 0 <= k < final(views)@.len() ==> (#[trigger] final(views)@[k]).spec_wf(),
        forall|i: int, j: int|
            0 <= i < j < final(views)@.len() ==> final(views)@[i].client_id
                != final(views)@[j].client_id,
        spec_view_model(final(views)@) == spec_views_after_event(
            spec_view_model(old(views)@),
            ConnectionEvent::Connected { client_id },
        ),
{
    let ghost vm0 = spec_view_model(old(views)@);
    let n = views.len();
    let mut i: usize = 0;
    while i < n
        invariant
            n == views@.len(),
            i <= n,
            views@ == old(views)@,
            vm0 == spec_view_model(old(views)@),
            forall|k: int| 0 <= k < views@.len() ==> (#[trigger] views@[k]).spec_wf(),
            forall|a: int, b: int|
                0 <= a < b < views@.len() ==> views@[a].client_id != views@[b].client_id,
            forall|k: int| 0 <= k < i ==> (#[trigger] views@[k]).client_id != client_id,
        decreases n - i,
    {
        if views[i].client_id == client_id {
            proof {
                assert(vm0.len() == views@.len());
                assert(vm0[i as int] == (views@[i as int].client_id, views@[i as int].sent@));
                assert(spec_view_model(views@) == spec_views_after_event(
                    vm0,
                    ConnectionEvent::Connected { client_id },
                ));
            }
            return;
        }
        i = i + 1;
    }
    views.push(ClientView::new(client_id));
    proof {
        assert forall|k: int| 0 <= k < vm0.len() implies (#[trigger] vm0[k]).0 != client_id by {
            assert(old(views)@[k].client_id != client_id);
        }
        assert(spec_view_model(views@) =~~= vm0.push((client_id, Seq::empty())));
    }
}

/// Dropping view entries keeps connection ids unique.
proof fn lemma_pair_filter_unique(
    vm: Seq<(u64, Seq<EntityRecord>)>,
    p: spec_fn((u64, Seq<EntityRecord>)) -> bool,
)
    requires
        forall|i: int, j: int| 0 <= i < j < vm.len() ==> vm[i].0 != vm[j].0,
    ensures
        forall|i: int, j: int|
            0 <= i < j < vm.filter(p).len() ==> vm.filter(p)[i].0 != vm.filter(p)[j].0,
        forall|i: int| 0 <= i < vm.filter(p).len() ==> vm.contains(#[trigger] vm.filter(p)[i]),
    decreases vm.len(),
{
    reveal(Seq::filter);
    if vm.len() > 0 {
        let t = vm.drop_last();
        lemma_pair_filter_unique(t, p);
        let f = vm.filter(p);
        let ft = t.filter(p);
        assert forall|i: int| 0 <= i < ft.len() implies vm.contains(#[trigger] ft[i]) by {
            assert(t.contains(ft[i]));
            let k = choose|k: int| 0 <= k < t.len() && t[k] == ft[i];
            assert(vm[k] == ft[i]);
        }
        if p(vm.last()) {
            assert(f == ft.push(vm.last()));
            assert forall|i: int, j: int| 0 <= i < j < f.len() implies f[i].0 != f[j].0 by {
                if j < ft.len() {
                    assert(ft[i].0 != ft[j].0);
                } else {
                    assert(t.contains(f[i]));
                    let k = choose|k: int| 0 <= k < t.len() && t[k] == f[i];
                    assert(vm[k].0 != vm[vm.len() - 1].0);
                }
            }
            assert forall|i: int| 0 <= i < f.len() implies vm.contains(#[trigger] f[i]) by {
                if i < ft.len() {
                    assert(vm.contains(ft[i]));
                } else {
                    assert(f[i] == vm[vm.len() - 1]);
                }
            }
        } else {
            assert(f == ft);
        }
    }
}

/// Unsubscribe a disconnected client.
fn view_disconnect(views: &mut Vec<ClientView>, client_id: u64)
    requires
        forall|k: int| 0 <= k < old(views)@.len() ==> (#[trigger] old(views)@[k]).spec_wf(),
        forall|i: int, j: int|
            0 <= i < j < old(views)@.len() ==> old(views)@[i].client_id
                != old(views)@[j].client_id,
    ensures
        forall|k: int| 0 <= k < final(views)@.len() ==> (#[trigger] final(views)@[k]).spec_wf(),
        forall|i: int, j: int|
            0 <= i < j < final(views)@.len() ==> final(views)@[i].client_id
                != final(views)@[j].client_id,
        spec_view_model(final(views)@) == spec_views_after_event(
            spec_view_model(old(views)@),
            ConnectionEvent::Disconnected { client_id },
        ),
{
    broadcast use vstd::seq_lib::group_seq_properties;

    let ghost v0 = old(views)@;
    let ghost vm0 = spec_view_model(v0);
    let ghost pm = |p: (u64, Seq<EntityRecord>)| p.0 != client_id;
    let n = views.len();
    let mut out: Vec<ClientView> = Vec::new();
    let mut i: usize = 0;
    proof {
        assert(vm0.take(0) =~= Seq::<(u64, Seq<EntityRecord>)>::empty());
        assert(views@ =~= v0.skip(0));
        reveal(Seq::filter);
    }
    while i < n
        invariant
            views@ =~= v0.skip(i as int),
            vm0 == spec_view_model(v0),
            pm == (|p: (u64, Seq<EntityRecord>)| p.0 != client_id),
            n == v0.len(),
            i <= n,
            forall|k: int| 0 <= k < v0.len() ==> (#[trigger] v0[k]).spec_wf(),
            forall|a: int, b: int|
                0 <= a < b < v0.len() ==> v0[a].client_id != v0[b].client_id,
            forall|k: int| 0 <= k < out@.len() ==> (#[trigger] out@[k]).spec_wf(),
            spec_view_model(out@) == vm0.take(i as int).filter(pm),
        decreases n - i,
    {
        proof {
            assert(vm0.take(i + 1).drop_last() =~= vm0.take(i as int));
            assert(vm0.take(i + 1).last() == vm0[i as int]);
            assert(v0.skip(i as int)[0] == v0[i as int]);
            reveal(Seq::filter);
        }
        let v = views.remove(0);
        proof {
            assert(v == v0[i as int]);
            assert(views@ =~= v0.skip(i + 1));
        }
        if v.client_id != client_id {
            let ghost out_pre = out@;
            out.push(v);
            proof {
                assert(spec_view_model(out@) =~= spec_view_model(out_pre).push(
                    (v.client_id, v.sent@),
                ));
                assert((v.client_id, v.sent@) == vm0[i as int]);
                assert(spec_view_model(out@) =~= vm0.take(i + 1).filter(pm));
            }
        } else {
            proof {
                assert(!pm(vm0[i as int]));
                assert(spec_view_model(out@) =~= vm0.take(i + 1).filter(pm));
            }
        }
        i = i + 1;
    }
    proof {
        assert(vm0.take(n as int) =~= vm0);
        lemma_pair_filter_unique(vm0, pm);
        let f = vm0.filter(pm);
        assert forall|a: int, b: int| 0 <= a < b < out@.len()
            implies out@[a].client_id != out@[b].client_id by {
            assert(spec_view_model(out@)[a] == (out@[a].client_id, out@[a].sent@));
            assert(spec_view_model(out@)[b] == (out@[b].client_id, out@[b].sent@));
            assert(f[a].0 != f[b].0);
        }
    }
    *views = out;
}


/// The entity table after the flash countdown.
pub open spec fn spec_flash_stage(s: Seq<Entity>, dt: int) -> Seq<Entity> {
    Seq::new(s.len(), |i: int| spec_flash_ticked(s[i], dt))
}

/// The entity table after the proximity pass.
pub open spec fn spec_prox_stage(s: Seq<Entity>, dt: int) -> Seq<Entity> {
    Seq::new(s.len(), |i: int| spec_prox_player(s, s[i], dt))
}

/// The entity table after the ground is rescaled to the player count.
pub open spec fn spec_scale_stage(s: Seq<Entity>) -> Seq<Entity> {
    Seq::new(
        s.len(),
        |i: int|
            if s[i].data is Ground {
                Entity {
                    transform: crate::components::Transform {
                        scale_milli: crate::lifecycle::spec_map_scale(
                            crate::world::spec_player_count(s) as int,
                        ) as i64,
                        ..s[i].transform
                    },
                    ..s[i]
                }
            } else {
                s[i]
            },
    )
}

/// The combat resolver and map scaling of one tick, in pipeline order:
/// flash countdown, proximity damage, attack resolution, ground scale.
pub open spec fn spec_combat_stage(s: Seq<Entity>, attacks: Seq<u64>, dt: int) -> Seq<Entity> {
    spec_scale_stage(
        spec_after_attacks(spec_prox_stage(spec_flash_stage(s, dt), dt), attacks),
    )
}

/// What the zombie spawn timer does over one tick: below the interval
/// it only accumulates; on completion it wraps and spawns one zombie at
/// a drawn position, unless the population cap suppresses the attempt.
pub open spec fn spec_spawn_outcome(
    s: Seq<Entity>,
    next_id0: u64,
    timer0: int,
    dt: int,
    s2: Seq<Entity>,
    timer2: int,
) -> bool {
    if timer0 + dt < ZOMBIE_SPAWN_INTERVAL_MS {
        s2 == s && timer2 == timer0 + dt
    } else {
        &&& timer2 == (timer0 + dt) % (ZOMBIE_SPAWN_INTERVAL_MS as int)
        &&& if crate::world::spec_zombie_count(s) >= crate::units::ZOMBIE_CAP {
            s2 == s
        } else {
            exists|r1: u64, r2: u64|
                s2 == s.push(crate::lifecycle::spec_spawned_zombie(next_id0, r1, r2))
        }
    }
}

/// The outbound packets as a mathematical value.
pub open spec fn spec_packet_model(ps: Seq<ClientPacket>) -> Seq<
    (u64, Seq<crate::replication::ReliableMessage>, Seq<crate::replication::UnreliableMessage>),
> {
    ps.map_values(|p: ClientPacket| (p.client_id, p.reliable@, p.unreliable@))
}

/// What one subscriber is sent and what its view becomes, given the
/// final table and the tick's removal log.
pub open spec fn spec_encoded(
    s_fin: Seq<Entity>,
    rlog: Seq<Removal>,
    vm0: Seq<(u64, Seq<EntityRecord>)>,
    vm_fin: Seq<(u64, Seq<EntityRecord>)>,
    packets: Seq<
        (
            u64,
            Seq<crate::replication::ReliableMessage>,
            Seq<crate::replication::UnreliableMessage>,
        ),
    >,
) -> bool {
    &&& vm_fin.len() == vm0.len()
    &&& packets.len() == vm0.len()
    &&& forall|k: int|
        0 <= k < vm0.len() ==> #[trigger] vm_fin[k] == (
            vm0[k].0,
            s_fin.map_values(|e: Entity| crate::replication::spec_record_of(e)),
        )
    &&& forall|k: int|
        0 <= k < vm0.len() ==> #[trigger] packets[k] == (
            vm0[k].0,
            crate::replication::spec_spawn_stream(s_fin, vm0[k].1)
                + crate::replication::spec_despawn_stream(s_fin, vm0[k].1, rlog),
            crate::replication::spec_diff_stream(s_fin, vm0[k].1),
        )
}

/// The whole tail of a tick, witnessed by the table `mid` as it stood
/// after the spawn attempt: combat, zombie spawning, the dead and
/// fallen sweeps, and the per-subscriber encoding.
pub open spec fn spec_finish_witness(
    s0: Seq<Entity>,
    attacks: Seq<u64>,
    removals0: Seq<Removal>,
    next_id0: u64,
    timer0: int,
    dt: int,
    vm0: Seq<(u64, Seq<EntityRecord>)>,
    mid: Seq<Entity>,
    s_fin: Seq<Entity>,
    timer_fin: int,
    vm_fin: Seq<(u64, Seq<EntityRecord>)>,
    packets: Seq<
        (
            u64,
            Seq<crate::replication::ReliableMessage>,
            Seq<crate::replication::UnreliableMessage>,
        ),
    >,
    disconnects: Seq<u64>,
) -> bool {
    let combat = spec_combat_stage(s0, attacks, dt);
    let after_dead = spec_after_reap(mid, ReapMode::Dead);
    let rlog = removals0 + spec_reap_removals(mid, ReapMode::Dead) + spec_reap_removals(
        after_dead,
        ReapMode::Fallen,
    );
    &&& spec_spawn_outcome(combat, next_id0, timer0, dt, mid, timer_fin)
    &&& s_fin == spec_after_reap(after_dead, ReapMode::Fallen)
    &&& disconnects == spec_reap_owners(mid, ReapMode::Dead) + spec_reap_owners(
        after_dead,
        ReapMode::Fallen,
    )
    &&& spec_encoded(s_fin, rlog, vm0, vm_fin, packets)
}

/// A tick's outbound traffic: per-subscriber packets, and the clients
/// to force-disconnect because their player died or fell this tick.
pub struct TickOutput {
    pub packets: Vec<ClientPacket>,
    pub disconnects: Vec<u64>,
}


impl ServerState {
    /// The head of a tick: consume the transport's connection events in
    /// order, drain the tick's client commands into movement intents
    /// (last write wins) and the pending attack list, and run the
    /// zombie controller.  The rigid-body collaborator moves entities
    /// afterwards; `finish_tick` resolves the consequences.
    #[verifier::rlimit(100)]
    pub fn begin_tick(&mut self, events: &Vec<ConnectionEvent>, commands: &Vec<ClientCommand>)
        requires
            old(self).spec_wf(),
            old(self).world.next_id + events@.len() <= u64::MAX,
        ensures
            final(self).spec_wf(),
            final(self).pending_attacks@ == spec_attackers(commands@),
            final(self).world.spawn_timer_ms == old(self).world.spawn_timer_ms,
            final(self).world.next_id as int == spec_world_after_events(
                old(self).world.entities@,
                old(self).world.next_id as int,
                events@,
            ).1,
            final(self).removals@ == old(self).removals@ + spec_world_after_events(
                old(self).world.entities@,
                old(self).world.next_id as int,
                events@,
            ).2,
            spec_ai_applied(
                spec_move_stage(
                    spec_world_after_events(
                        old(self).world.entities@,
                        old(self).world.next_id as int,
                        events@,
                    ).0,
                    commands@,
                ),
                final(self).world.entities@,
            ),
            final(self).spec_views() == spec_views_after_events(
                spec_view_model(old(self).views@),
                events@,
            ),
    {
        let ghost s0 = old(self).world.entities@;
        let ghost n0 = old(self).world.next_id as int;
        let ghost evs = events@;
        let ghost vm0 = spec_view_model(old(self).views@);
        let ghost r0 = old(self).removals@;
        let n = events.len();
        let mut i: usize = 0;
        proof {
            assert(evs.skip(0) =~= evs);
        }
        while i < n
            invariant
                self.world.spec_wf(),
                forall|k: int| 0 <= k < self.views@.len()
                    ==> (#[trigger] self.views@[k]).spec_wf(),
                forall|a: int, b: int|
                    0 <= a < b < self.views@.len() ==> self.views@[a].client_id
                        != self.views@[b].client_id,
                n == evs.len(),
                i <= n,
                evs == events@,
                self.world.next_id as int <= n0 + i,
                self.world.next_id + (n - i) <= u64::MAX,
                self.world.spawn_timer_ms == old(self).world.spawn_timer_ms,
                self.pending_attacks@ == old(self).pending_attacks@,
                spec_world_after_events(s0, n0, evs).0 == spec_world_after_events(
                    self.world.entities@,
                    self.world.next_id as int,
                    evs.skip(i as int),
                ).0,
                spec_world_after_events(s0, n0, evs).1 == spec_world_after_events(
                    self.world.entities@,
                    self.world.next_id as int,
                    evs.skip(i as int),
                ).1,
                r0 + spec_world_after_events(s0, n0, evs).2 == self.removals@
                    + spec_world_after_events(
                    self.world.entities@,
                    self.world.next_id as int,
                    evs.skip(i as int),
                ).2,
                spec_views_after_events(vm0, evs) == spec_views_after_events(
                    spec_view_model(self.views@),
                    evs.skip(i as int),
                ),
            decreases n - i,
        {
            proof {
                assert(evs.skip(i as int).first() == evs[i as int]);
                assert(evs.skip(i as int).drop_first() =~= evs.skip(i + 1));
            }
            let ev = events[i];
            match ev {
                ConnectionEvent::Connected { client_id } => {
                    connect_client(&mut self.world, client_id);
                    view_connect(&mut self.views, client_id);
                },
                ConnectionEvent::Disconnected { client_id } => {
                    let mut rs = disconnect_client(&mut self.world, client_id);
                    self.removals.append(&mut rs);
                    view_disconnect(&mut self.views, client_id);
                },
            }
            i = i + 1;
        }
        proof {
            assert(evs.skip(n as int) =~= Seq::<ConnectionEvent>::empty());
        }
        let (moves, attacks) = collate_commands(commands);
        proof {
            assert forall|k: int| 0 <= k < moves@.len()
                implies (#[trigger] moves@[k]).1.spec_valid() by {
                crate::intake::lemma_last_valid_move_is_valid(commands@, moves@[k].0);
            }
        }
        let ghost s_mid = self.world.entities@;
        apply_moves(&mut self.world, &moves);
        proof {
            lemma_collated_moves_agree(s_mid, commands@, moves@);
        }
        self.pending_attacks = attacks;
        ai_step(&mut self.world);
    }

    /// The tail of a tick, run after the rigid-body collaborator has
    /// moved everyone: combat (flash countdown, proximity damage,
    /// pending attacks), ground scaling, the zombie spawn timer, the
    /// dead and fallen sweeps with their forced disconnects, and the
    /// per-subscriber replication encoding.  One tick's effects reach
    /// the clients only here, whole.
    #[verifier::rlimit(100)]
    pub fn finish_tick(&mut self, dt_ms: u32) -> (out: TickOutput)
        requires
            old(self).spec_wf(),
            dt_ms <= MAX_TICK_MS,
            old(self).world.spawn_timer_ms <= ZOMBIE_SPAWN_INTERVAL_MS,
            old(self).world.next_id < u64::MAX,
        ensures
            final(self).spec_wf(),
            final(self).pending_attacks@.len() == 0,
            final(self).removals@.len() == 0,
            final(self).world.spawn_timer_ms <= ZOMBIE_SPAWN_INTERVAL_MS,
            exists|mid: Seq<Entity>|
                spec_finish_witness(
                    old(self).world.entities@,
                    old(self).pending_attacks@,
                    old(self).removals@,
                    old(self).world.next_id,
                    old(self).world.spawn_timer_ms as int,
                    dt_ms as int,
                    spec_view_model(old(self).views@),
                    mid,
                    final(self).world.entities@,
                    final(self).world.spawn_timer_ms as int,
                    spec_view_model(final(self).views@),
                    spec_packet_model(out.packets@),
                    out.disconnects@,
                ),
    {
        let ghost s0 = old(self).world.entities@;
        let ghost dt = dt_ms as int;
        update_damage_flash(&mut self.world, dt_ms);
        proof {
            assert(self.world.entities@ =~= spec_flash_stage(s0, dt));
        }
        let ghost s1 = self.world.entities@;
        proximity_damage(&mut self.world, dt_ms);
        proof {
            assert(self.world.entities@ =~= spec_prox_stage(s1, dt));
        }
        let mut attacks: Vec<u64> = Vec::new();
        core::mem::swap(&mut self.pending_attacks, &mut attacks);
        resolve_attacks(&mut self.world, &attacks);
        update_map_size(&mut self.world);
        proof {
            assert(self.world.entities@ =~= spec_combat_stage(
                s0,
                old(self).pending_attacks@,
                dt,
            ));
        }
        crate::lifecycle::spawn_zombies(&mut self.world, dt_ms);
        let ghost mid = self.world.entities@;
        proof {
            assert(spec_spawn_outcome(
                spec_combat_stage(s0, old(self).pending_attacks@, dt),
                old(self).world.next_id,
                old(self).world.spawn_timer_ms as int,
                dt,
                mid,
                self.world.spawn_timer_ms as int,
            ));
        }
        let (mut rem_d, mut own_d) = reap(&mut self.world, ReapMode::Dead);
        let (mut rem_f, mut own_f) = reap(&mut self.world, ReapMode::Fallen);
        self.removals.append(&mut rem_d);
        self.removals.append(&mut rem_f);
        let mut views_taken: Vec<ClientView> = Vec::new();
        core::mem::swap(&mut self.views, &mut views_taken);
        let ghost vm0 = spec_view_model(views_taken@);
        let ghost rlog_exec = self.removals@;
        let (new_views, packets) = encode_all(&self.world, views_taken, &self.removals);
        let ghost nvs = new_views@;
        let ghost pks = packets@;
        self.views = new_views;
        self.removals = Vec::new();
        let mut disconnects = own_d;
        disconnects.append(&mut own_f);
        let out = TickOutput { packets, disconnects };
        proof {
            let s_fin = final(self).world.entities@;
            let pm = spec_packet_model(out.packets@);
            let vmf = spec_view_model(final(self).views@);
            assert(final(self).views@ == nvs && out.packets@ == pks);
            assert(rlog_exec == old(self).removals@ + spec_reap_removals(mid, ReapMode::Dead)
                + spec_reap_removals(spec_after_reap(mid, ReapMode::Dead), ReapMode::Fallen));
            assert forall|k: int| 0 <= k < vm0.len() implies #[trigger] vmf[k] == (
                vm0[k].0,
                s_fin.map_values(|e: Entity| crate::replication::spec_record_of(e)),
            ) by {
                assert(nvs[k].client_id == views_taken@[k].client_id);
                assert(nvs[k].sent@ =~= s_fin.map_values(
                    |e: Entity| crate::replication::spec_record_of(e),
                ));
                assert(vmf[k] == (nvs[k].client_id, nvs[k].sent@));
            }
            assert forall|k: int| 0 <= k < vm0.len() implies #[trigger] pm[k] == (
                vm0[k].0,
                crate::replication::spec_spawn_stream(s_fin, vm0[k].1)
                    + crate::replication::spec_despawn_stream(s_fin, vm0[k].1, rlog_exec),
                crate::replication::spec_diff_stream(s_fin, vm0[k].1),
            ) by {
                assert(nvs[k].client_id == views_taken@[k].client_id);
                assert(pks[k].client_id == views_taken@[k].client_id);
                assert(pks[k].reliable@ == crate::replication::spec_spawn_stream(
                    s_fin,
                    views_taken@[k].sent@,
                ) + crate::replication::spec_despawn_stream(
                    s_fin,
                    views_taken@[k].sent@,
                    rlog_exec,
                ));
                assert(vm0[k] == (views_taken@[k].client_id, views_taken@[k].sent@));
                assert(pm[k] == (pks[k].client_id, pks[k].reliable@, pks[k].unreliable@));
            }
            assert(spec_finish_witness(
                s0,
                old(self).pending_attacks@,
                old(self).removals@,
                old(self).world.next_id,
                old(self).world.spawn_timer_ms as int,
                dt,
                vm0,
                mid,
                final(self).world.entities@,
                final(self).world.spawn_timer_ms as int,
                vmf,
                pm,
                out.disconnects@,
            ));
            assert(vm0 == spec_view_model(old(self).views@));
        }
        out
    }
}

} // verus!
