//! The replication encoder: per subscriber, diff the world against the
//! state last sent, emit structural events (spawn, despawn with reason)
//! on the reliable-ordered channel and changed continuous fields on the
//! unreliable channel, and remember what was sent.

use vstd::prelude::*;
use crate::components::{DamageFlash, Health, Transform};
use crate::lifecycle::{Removal, RemovalReason};
use crate::world::{spec_has_id, Entity, EntityData, World};

verus! {

/// The replicated state of one entity, as last sent to a subscriber.
#[derive(Clone, Copy, PartialEq, Eq, Structural, Debug)]
pub struct EntityRecord {
    pub id: u64,
    pub data: EntityData,
    pub transform: Transform,
}

/// The replicated projection of an entity: everything but its velocity,
/// which the physics collaborator owns.
pub open spec fn spec_record_of(e: Entity) -> EntityRecord {
    EntityRecord { id: e.id, data: e.data, transform: e.transform }
}

/// A structural event; delivered reliably and in order, so a client
/// never processes a despawn before the spawn it refers to.
#[derive(Clone, Copy, PartialEq, Eq, Structural, Debug)]
pub enum ReliableMessage {
    /// A newly visible entity with its full replicated state.
    Spawn(EntityRecord),
    /// An entity left the world, and why.
    Despawn { id: u64, reason: RemovalReason },
}

/// A continuous per-tick update; best-effort delivery, superseded by
/// the next tick's update.
#[derive(Clone, Copy, PartialEq, Eq, Structural, Debug)]
pub enum UnreliableMessage {
    TransformUpdate { id: u64, transform: Transform },
    HealthUpdate { id: u64, health: Health },
    FlashUpdate { id: u64, flash: DamageFlash },
}

impl UnreliableMessage {
    /// The entity an update speaks of.
    pub open spec fn spec_target(self) -> u64 {
        match self {
            UnreliableMessage::TransformUpdate { id, .. } => id,
            UnreliableMessage::HealthUpdate { id, .. } => id,
            UnreliableMessage::FlashUpdate { id, .. } => id,
        }
    }
}

/// One subscriber's view: the connection it belongs to and the state
/// last sent for every entity it knows of.
#[derive(Debug)]
pub struct ClientView {
    pub client_id: u64,
    pub sent: Vec<EntityRecord>,
}

/// Record ids are unique within a view.
pub open spec fn spec_view_ids_unique(v: Seq<EntityRecord>) -> bool {
    forall|i: int, j: int| 0 <= i < j < v.len() ==> v[i].id != v[j].id
}

/// The view knows this entity id.
pub open spec fn spec_view_has(v: Seq<EntityRecord>, id: u64) -> bool {
    exists|i: int| 0 <= i < v.len() && v[i].id == id
}

/// The record held for a known id.
pub open spec fn spec_view_index(v: Seq<EntityRecord>, id: u64) -> int {
    choose|i: int| 0 <= i < v.len() && (#[trigger] v[i]).id == id
}

impl ClientView {
    pub open spec fn spec_wf(self) -> bool {
        spec_view_ids_unique(self.sent@)
    }

    /// A fresh subscriber that has been sent nothing.
    pub fn new(client_id: u64) -> (r: ClientView)
        ensures
            r.client_id == client_id,
            r.sent@.len() == 0,
            r.spec_wf(),
    {
        ClientView { client_id, sent: Vec::new() }
    }
}

/// The reason recorded for a departed entity: the first removal entry
/// that names it, or a plain disconnect cleanup when none does.
pub open spec fn spec_reason_of(rs: Seq<Removal>, id: u64) -> RemovalReason
    decreases rs.len(),
{
    if rs.len() == 0 {
        RemovalReason::Disconnected
    } else if rs.first().id == id {
        rs.first().reason
    } else {
        spec_reason_of(rs.drop_first(), id)
    }
}

/// The spawn messages of one encode pass: every world entity the view
/// does not know yet, in world order, with its full state.
pub open spec fn spec_spawn_stream(s: Seq<Entity>, v: Seq<EntityRecord>) -> Seq<
    ReliableMessage,
> {
    s.filter(|e: Entity| !spec_view_has(v, e.id)).map_values(
        |e: Entity| ReliableMessage::Spawn(spec_record_of(e)),
    )
}

/// The despawn messages of one encode pass: every view record whose
/// entity has left the world, with the reason the lifecycle logged.
pub open spec fn spec_despawn_stream(
    s: Seq<Entity>,
    v: Seq<EntityRecord>,
    rs: Seq<Removal>,
) -> Seq<ReliableMessage> {
    v.filter(|r: EntityRecord| !spec_has_id(s, r.id)).map_values(
        |r: EntityRecord| ReliableMessage::Despawn { id: r.id, reason: spec_reason_of(rs, r.id) },
    )
}

/// The updates one known entity contributes: each replicated continuous
/// field that differs from the state last sent.
pub open spec fn spec_updates_for(e: Entity, r: EntityRecord) -> Seq<UnreliableMessage> {
    (if e.transform != r.transform {
        seq![UnreliableMessage::TransformUpdate { id: e.id, transform: e.transform }]
    } else {
        Seq::empty()
    }) + (if e.spec_is_player() && !(r.data is Player && e.spec_health()
        == r.data->Player_health) {
        seq![UnreliableMessage::HealthUpdate { id: e.id, health: e.spec_health() }]
    } else {
        Seq::empty()
    }) + (if e.spec_is_player() && !(r.data is Player && e.spec_flash()
        == r.data->Player_flash) {
        seq![UnreliableMessage::FlashUpdate { id: e.id, flash: e.spec_flash() }]
    } else {
        Seq::empty()
    })
}

/// The unreliable stream of one encode pass: in world order, the diffs
/// of every entity the view already knows.
pub open spec fn spec_diff_stream(s: Seq<Entity>, v: Seq<EntityRecord>) -> Seq<
    UnreliableMessage,
>
    decreases s.len(),
{
    if s.len() == 0 {
        Seq::empty()
    } else {
        spec_diff_stream(s.drop_last(), v) + (if spec_view_has(v, s.last().id) {
            spec_updates_for(s.last(), v[spec_view_index(v, s.last().id)])
        } else {
            Seq::empty()
        })
    }
}

/// Unreliable updates only ever speak of entities the subscriber was
/// already sent a spawn for, and that are still live: no update can
/// reference an entity that has not first appeared structurally.
pub proof fn lemma_updates_previously_spawned(s: Seq<Entity>, v: Seq<EntityRecord>)
    ensures
        forall|m: int|
            0 <= m < spec_diff_stream(s, v).len() ==> spec_view_has(
                v,
                (#[trigger] spec_diff_stream(s, v)[m]).spec_target(),
            ) && spec_has_id(s, spec_diff_stream(s, v)[m].spec_target()),
    decreases s.len(),
{
    if s.len() > 0 {
        let t = s.drop_last();
        lemma_updates_previously_spawned(t, v);
        assert forall|m: int| 0 <= m < spec_diff_stream(s, v).len()
            implies spec_view_has(v, (#[trigger] spec_diff_stream(s, v)[m]).spec_target())
                && spec_has_id(s, spec_diff_stream(s, v)[m].spec_target()) by {
            let pre = spec_diff_stream(t, v);
            if m < pre.len() {
                assert(spec_diff_stream(s, v)[m] == pre[m]);
                assert(spec_has_id(t, pre[m].spec_target()));
                let w = choose|w: int| 0 <= w < t.len() && t[w].id == pre[m].spec_target();
                assert(s[w].id == pre[m].spec_target());
            } else {
                assert(spec_view_has(v, s.last().id));
                assert(spec_diff_stream(s, v)[m].spec_target() == s.last().id);
                assert(s[s.len() - 1].id == s.last().id);
            }
        }
    }
}

/// Every id the refreshed view knows was either known before or is
/// spawned on the reliable channel in this very pass: a spawn always
/// precedes any later reference to the entity.
pub proof fn lemma_view_growth_is_spawned(s: Seq<Entity>, v: Seq<EntityRecord>)
    ensures
        forall|i: int|
            0 <= i < s.len() ==> spec_view_has(v, (#[trigger] s[i]).id) || spec_spawn_stream(
                s,
                v,
            ).contains(ReliableMessage::Spawn(spec_record_of(s[i]))),
{
    let p = |e: Entity| !spec_view_has(v, e.id);
    assert forall|i: int| 0 <= i < s.len() && !spec_view_has(v, (#[trigger] s[i]).id)
        implies spec_spawn_stream(s, v).contains(
            ReliableMessage::Spawn(spec_record_of(s[i])),
        ) by {
        s.lemma_filter_contains(p, i);
        let f = s.filter(p);
        let w = choose|w: int| 0 <= w < f.len() && f[w] == s[i];
        assert(spec_spawn_stream(s, v)[w] == ReliableMessage::Spawn(spec_record_of(s[i])));
    }
}

/// Despawns also only speak of entities the subscriber was sent a
/// spawn for: each targets a record of the view, none a live entity.
pub proof fn lemma_despawns_previously_spawned(
    s: Seq<Entity>,
    v: Seq<EntityRecord>,
    rs: Seq<Removal>,
)
    ensures
        forall|m: int|
            0 <= m < spec_despawn_stream(s, v, rs).len()
                ==> ((#[trigger] spec_despawn_stream(s, v, rs)[m]) matches
                ReliableMessage::Despawn { id, .. } && spec_view_has(v, id) && !spec_has_id(
                    s,
                    id,
                )),
{
    let p = |r: EntityRecord| !spec_has_id(s, r.id);
    let f = v.filter(p);
    assert forall|m: int| 0 <= m < f.len() implies spec_view_has(v, (#[trigger] f[m]).id)
        && !spec_has_id(s, f[m].id) by {
        v.lemma_filter_pred(p, m);
        v.lemma_filter_contains_rev(p, f[m]);
        let w = choose|w: int| 0 <= w < v.len() && v[w] == f[m];
        assert(v[w].id == f[m].id);
    }
}

/// Look up the record a view holds for an id.
fn view_find(sent: &Vec<EntityRecord>, id: u64) -> (r: Option<usize>)
    ensures
        match r {
            Some(i) => i < sent@.len() && sent@[i as int].id == id,
            None => !spec_view_has(sent@, id),
        },
{
    let mut i: usize = 0;
    while i < sent.len()
        invariant
            i <= sent@.len(),
            forall|k: int| 0 <= k < i ==> (#[trigger] sent@[k]).id != id,
        decreases sent@.len() - i,
    {
        if sent[i].id == id {
            return Some(i);
        }
        i = i + 1;
    }
    None
}

/// The reason the lifecycle logged for a departed entity.
fn reason_of(removals: &Vec<Removal>, id: u64) -> (r: RemovalReason)
    ensures
        r == spec_reason_of(removals@, id),
{
    let n = removals.len();
    let mut i: usize = 0;
    proof {
        assert(removals@.skip(0) =~= removals@);
    }
    while i < n
        invariant
            n == removals@.len(),
            i <= n,
            spec_reason_of(removals@, id) == spec_reason_of(removals@.skip(i as int), id),
            forall|k: int| 0 <= k < i ==> (#[trigger] removals@[k]).id != id,
        decreases n - i,
    {
        proof {
            assert(removals@.skip(i as int).first() == removals@[i as int]);
            assert(removals@.skip(i as int).drop_first() =~= removals@.skip(i + 1));
        }
        if removals[i].id == id {
            return removals[i].reason;
        }
        i = i + 1;
    }
    proof {
        assert(removals@.skip(n as int) =~= Seq::<Removal>::empty());
    }
    RemovalReason::Disconnected
}

/// Encode one tick for one subscriber: spawns for newly visible
/// entities and despawns (with reasons) reliably, changed continuous
/// fields unreliably, and the refreshed view for the next tick.
#[verifier::rlimit(100)]
pub fn encode_for_client(
    world: &World,
    view: ClientView,
    removals: &Vec<Removal>,
) -> (r: (ClientView, Vec<ReliableMessage>, Vec<UnreliableMessage>))
    requires
        world.spec_wf(),
        view.spec_wf(),
    ensures
        r.0.client_id == view.client_id,
        r.0.sent@ == world.entities@.map_values(|e: Entity| spec_record_of(e)),
        r.0.spec_wf(),
        r.1@ == spec_spawn_stream(world.entities@, view.sent@) + spec_despawn_stream(
            world.entities@,
            view.sent@,
            removals@,
        ),
        r.2@ == spec_diff_stream(world.entities@, view.sent@),
{
    broadcast use vstd::seq_lib::group_seq_properties;

    let ghost s = world.entities@;
    let ghost v = view.sent@;
    let ghost pnew = |e: Entity| !spec_view_has(v, e.id);
    let n = world.entities.len();
    let mut new_sent: Vec<EntityRecord> = Vec::new();
    let mut spawns: Vec<ReliableMessage> = Vec::new();
    let mut unrel: Vec<UnreliableMessage> = Vec::new();
    let mut i: usize = 0;
    proof {
        assert(s.take(0) =~= Seq::<Entity>::empty());
        reveal(Seq::filter);
    }
    while i < n
        invariant
            world.spec_wf(),
            view.spec_wf(),
            s == world.entities@,
            v == view.sent@,
            pnew == (|e: Entity| !spec_view_has(v, e.id)),
            n == s.len(),
            i <= n,
            new_sent@ == s.take(i as int).map_values(|e: Entity| spec_record_of(e)),
            spawns@ == spec_spawn_stream(s.take(i as int), v),
            unrel@ == spec_diff_stream(s.take(i as int), v),
        decreases n - i,
    {
        proof {
            assert(s.take(i + 1).drop_last() =~= s.take(i as int));
            assert(s.take(i + 1).last() == s[i as int]);
            reveal(Seq::filter);
        }
        let e = world.entities[i];
        new_sent.push(EntityRecord { id: e.id, data: e.data, transform: e.transform });
        proof {
            assert(new_sent@ =~= s.take(i + 1).map_values(|e2: Entity| spec_record_of(e2)));
        }
        let found = view_find(&view.sent, e.id);
        match found {
            None => {
                spawns.push(
                    ReliableMessage::Spawn(
                        EntityRecord { id: e.id, data: e.data, transform: e.transform },
                    ),
                );
                proof {
                    assert(spawns@ =~= spec_spawn_stream(s.take(i + 1), v));
                    assert(unrel@ =~= spec_diff_stream(s.take(i + 1), v));
                }
            },
            Some(vi) => {
                proof {
                    assert(spec_view_has(v, e.id));
                    let ci = spec_view_index(v, e.id);
                    if ci != vi as int {
                        assert(v[ci].id == v[vi as int].id);
                        assert(false);
                    }
                }
                let rec = view.sent[vi];
                let ghost before = unrel@;
                if e.transform != rec.transform {
                    unrel.push(
                        UnreliableMessage::TransformUpdate { id: e.id, transform: e.transform },
                    );
                }
                match e.data {
                    EntityData::Player { health, flash, .. } => {
                        let mut rec_health: Option<Health> = None;
                        let mut rec_flash: Option<DamageFlash> = None;
                        match rec.data {
                            EntityData::Player { health: rh, flash: rf, .. } => {
                                rec_health = Some(rh);
                                rec_flash = Some(rf);
                            },
                            _ => {},
                        }
                        let send_health: bool = match rec_health {
                            Some(rh) => health != rh,
                            None => true,
                        };
                        let send_flash: bool = match rec_flash {
                            Some(rf) => flash != rf,
                            None => true,
                        };
                        if send_health {
                            unrel.push(UnreliableMessage::HealthUpdate { id: e.id, health });
                        }
                        if send_flash {
                            unrel.push(UnreliableMessage::FlashUpdate { id: e.id, flash });
                        }
                    },
                    _ => {},
                }
                proof {
                    assert(before + spec_updates_for(e, v[vi as int]) =~= unrel@);
                    assert(spawns@ =~= spec_spawn_stream(s.take(i + 1), v));
                    assert(unrel@ =~= spec_diff_stream(s.take(i + 1), v));
                }
            },
        }
        i = i + 1;
    }
    proof {
        assert(s.take(n as int) =~= s);
    }
    // Despawns: every view record whose entity has left the world.
    let ghost pgone = |r2: EntityRecord| !spec_has_id(s, r2.id);
    let m = view.sent.len();
    let mut rel: Vec<ReliableMessage> = spawns;
    let ghost spawn_count = rel@.len();
    let mut j: usize = 0;
    proof {
        assert(v.take(0) =~= Seq::<EntityRecord>::empty());
        reveal(Seq::filter);
    }
    while j < m
        invariant
            world.spec_wf(),
            s == world.entities@,
            v == view.sent@,
            pgone == (|r2: EntityRecord| !spec_has_id(s, r2.id)),
            m == v.len(),
            j <= m,
            rel@ == spec_spawn_stream(s, v) + spec_despawn_stream(s, v.take(j as int), removals@),
        decreases m - j,
    {
        proof {
            assert(v.take(j + 1).drop_last() =~= v.take(j as int));
            assert(v.take(j + 1).last() == v[j as int]);
            reveal(Seq::filter);
        }
        let rec = view.sent[j];
        let found = world.find_by_id(rec.id);
        match found {
            Some(_) => {
                proof {
                    assert(rel@ =~= spec_spawn_stream(s, v) + spec_despawn_stream(
                        s,
                        v.take(j + 1),
                        removals@,
                    ));
                }
            },
            None => {
                let reason = reason_of(removals, rec.id);
                rel.push(ReliableMessage::Despawn { id: rec.id, reason });
                proof {
                    assert(rel@ =~= spec_spawn_stream(s, v) + spec_despawn_stream(
                        s,
                        v.take(j + 1),
                        removals@,
                    ));
                }
            },
        }
        j = j + 1;
    }
    proof {
        assert(v.take(m as int) =~= v);
        let snap = s.map_values(|e2: Entity| spec_record_of(e2));
        assert forall|a: int, b: int| 0 <= a < b < snap.len()
            implies snap[a].id != snap[b].id by {
            assert(s[a].id != s[b].id);
        }
    }
    (ClientView { client_id: view.client_id, sent: new_sent }, rel, unrel)
}

/// The subscriber views as a mathematical value: connection id and the
/// records last sent.
pub open spec fn spec_view_model(vs: Seq<ClientView>) -> Seq<(u64, Seq<EntityRecord>)> {
    vs.map_values(|v: ClientView| (v.client_id, v.sent@))
}

/// One subscriber's outbound messages for a tick.
pub struct ClientPacket {
    pub client_id: u64,
    pub reliable: Vec<ReliableMessage>,
    pub unreliable: Vec<UnreliableMessage>,
}

/// Encode one tick for every subscriber, refreshing each view.
pub fn encode_all(
    world: &World,
    views: Vec<ClientView>,
    removals: &Vec<Removal>,
) -> (r: (Vec<ClientView>, Vec<ClientPacket>))
    requires
        world.spec_wf(),
        forall|k: int| 0 <= k < views@.len() ==> (#[trigger] views@[k]).spec_wf(),
    ensures
        r.0@.len() == views@.len(),
        r.1@.len() == views@.len(),
        forall|k: int|
            0 <= k < views@.len() ==> {
                let enc = (
                    #[trigger] r.0@[k],
                    r.1@[k],
                );
                &&& enc.0.client_id == views@[k].client_id
                &&& enc.0.sent@ == world.entities@.map_values(|e: Entity| spec_record_of(e))
                &&& enc.0.spec_wf()
                &&& enc.1.client_id == views@[k].client_id
                &&& enc.1.reliable@ == spec_spawn_stream(world.entities@, views@[k].sent@)
                    + spec_despawn_stream(world.entities@, views@[k].sent@, removals@)
                &&& enc.1.unreliable@ == spec_diff_stream(world.entities@, views@[k].sent@)
            },
{
    let n = views.len();
    let mut views_in = views;
    let mut new_views: Vec<ClientView> = Vec::new();
    let mut packets: Vec<ClientPacket> = Vec::new();
    let mut k: usize = 0;
    let ghost v0 = views_in@;
    proof {
        assert(views_in@ =~= v0.skip(0));
    }
    while k < n
        invariant
            world.spec_wf(),
            views_in@ =~= v0.skip(k as int),
            n == v0.len(),
            k <= n,
            forall|x: int| 0 <= x < n ==> (#[trigger] v0[x]).spec_wf(),
            new_views@.len() == k,
            packets@.len() == k,
            forall|x: int|
                0 <= x < k ==> {
                    let enc = (
                        #[trigger] new_views@[x],
                        packets@[x],
                    );
                    &&& enc.0.client_id == v0[x].client_id
                    &&& enc.0.sent@ == world.entities@.map_values(|e: Entity| spec_record_of(e))
                    &&& enc.0.spec_wf()
                    &&& enc.1.client_id == v0[x].client_id
                    &&& enc.1.reliable@ == spec_spawn_stream(world.entities@, v0[x].sent@)
                        + spec_despawn_stream(world.entities@, v0[x].sent@, removals@)
                    &&& enc.1.unreliable@ == spec_diff_stream(world.entities@, v0[x].sent@)
                },
        decreases n - k,
    {
        let view = views_in.remove(0);
        proof {
            assert(v0.skip(k as int).first() == v0[k as int]);
            assert(view == v0[k as int]);
            assert(v0.skip(k as int).drop_first() =~= v0.skip(k + 1));
        }
        let (nv, rel, unrel) = encode_for_client(world, view, removals);
        let cid = nv.client_id;
        new_views.push(nv);
        packets.push(ClientPacket { client_id: cid, reliable: rel, unreliable: unrel });
        k = k + 1;
    }
    (new_views, packets)
}

} // verus!
