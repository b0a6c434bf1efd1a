//! Movement intent: turn each client's validated movement command into
//! the desired velocity and rotation target of its player entity.  The
//! rigid-body collaborator consumes these afterwards.

use vstd::prelude::*;
use crate::components::{Facing, MovePlayer, Transform};
use crate::units::{GROUND_EPSILON_MILLI, JUMP_VELOCITY_MILLI, PLAYER_SPEED_MILLI};
use crate::vec3::{lemma_scaled_abs_le, scale_trunc, spec_scaled, sq, Vec3Milli};
use crate::world::{spec_has_owner, Entity, World};

verus! {

/// The x component of the command's heading rotated by the camera yaw.
pub open spec fn spec_rot_x(m: MovePlayer) -> int {
    spec_scaled(
        m.direction.x * m.camera_yaw.cos_milli + m.direction.z * m.camera_yaw.sin_milli,
        1,
        1000,
    )
}

/// The z component of the command's heading rotated by the camera yaw.
pub open spec fn spec_rot_z(m: MovePlayer) -> int {
    spec_scaled(
        -m.direction.x * m.camera_yaw.sin_milli + m.direction.z * m.camera_yaw.cos_milli,
        1,
        1000,
    )
}

/// Desired horizontal velocity: the rotated heading times player speed.
pub open spec fn spec_move_vx(m: MovePlayer) -> int {
    spec_scaled(spec_rot_x(m), PLAYER_SPEED_MILLI as int, 1000)
}

pub open spec fn spec_move_vz(m: MovePlayer) -> int {
    spec_scaled(spec_rot_z(m), PLAYER_SPEED_MILLI as int, 1000)
}

/// A jump is granted when the command asks for one and the entity is
/// approximately grounded (tiny vertical velocity).
pub open spec fn spec_jump_granted(m: MovePlayer, vy: int) -> bool {
    m.direction.y > 0 && -GROUND_EPSILON_MILLI < vy < GROUND_EPSILON_MILLI
}

/// The entity turns to face its heading only when the rotated heading is
/// longer than a hundredth of a unit.
pub open spec fn spec_turns(m: MovePlayer) -> bool {
    sq(spec_rot_x(m)) + sq(spec_rot_z(m)) > 100
}

/// A player entity after one movement command is applied: velocity and
/// rotation target change, nothing else does.
pub open spec fn spec_moved_entity(e: Entity, m: MovePlayer) -> Entity {
    Entity {
        velocity: Vec3Milli {
            x: spec_move_vx(m) as i64,
            y: if spec_jump_granted(m, e.velocity.y as int) {
                JUMP_VELOCITY_MILLI
            } else {
                e.velocity.y
            },
            z: spec_move_vz(m) as i64,
        },
        transform: Transform {
            facing: if spec_turns(m) {
                Facing { x_milli: spec_rot_x(m) as i64, z_milli: spec_rot_z(m) as i64 }
            } else {
                e.transform.facing
            },
            ..e.transform
        },
        ..e
    }
}

/// The command's heading rotated by its camera yaw, in milli-units.
fn rotated_heading(m: &MovePlayer) -> (r: (i64, i64))
    requires
        m.spec_valid(),
    ensures
        r.0 == spec_rot_x(*m),
        r.1 == spec_rot_z(*m),
        -2_000_000 <= r.0 <= 2_000_000,
        -2_000_000 <= r.1 <= 2_000_000,
{
    proof {
        assert forall|a: int, b: int| -1_000_000 <= a <= 1_000_000 && -1000 <= b <= 1000
            implies -1_000_000_000 <= #[trigger] (a * b) <= 1_000_000_000 by {
            assert(-1_000_000_000 <= a * b <= 1_000_000_000) by (nonlinear_arith)
                requires -1_000_000 <= a <= 1_000_000, -1000 <= b <= 1000;
        }
    }
    let sx: i64 = m.direction.x * m.camera_yaw.cos_milli + m.direction.z * m.camera_yaw.sin_milli;
    let sz: i64 = -m.direction.x * m.camera_yaw.sin_milli
        + m.direction.z * m.camera_yaw.cos_milli;
    let rx: i64 = scale_trunc(sx, 1, 1000);
    let rz: i64 = scale_trunc(sz, 1, 1000);
    proof {
        lemma_scaled_abs_le(sx as int, 1, 1000, 2_000_000);
        lemma_scaled_abs_le(sz as int, 1, 1000, 2_000_000);
    }
    (rx, rz)
}

/// Apply one client's movement command to its player entity: set the
/// horizontal velocity from the rotated heading, grant a jump impulse
/// when asked for and grounded, and face the heading.  A client without
/// a live player is a no-op.
pub fn apply_move(world: &mut World, client_id: u64, m: MovePlayer)
    requires
        old(world).spec_wf(),
        m.spec_valid(),
    ensures
        final(world).spec_wf(),
        final(world).next_id == old(world).next_id,
        final(world).spawn_timer_ms == old(world).spawn_timer_ms,
        !spec_has_owner(old(world).entities@, client_id) ==> final(world).entities@ == old(
            world,
        ).entities@,
        spec_has_owner(old(world).entities@, client_id) ==> exists|i: int|
            0 <= i < old(world).entities@.len()
                && (#[trigger] old(world).entities@[i]).spec_is_player()
                && old(world).entities@[i].spec_owner() == client_id
                && final(world).entities@ == old(world).entities@.update(
                i,
                spec_moved_entity(old(world).entities@[i], m),
            ),
{
    let found = world.find_player_by_owner(client_id);
    match found {
        None => {},
        Some(i) => {
            let (rx, rz) = rotated_heading(&m);
            let vx: i64 = scale_trunc(rx, PLAYER_SPEED_MILLI, 1000);
            let vz: i64 = scale_trunc(rz, PLAYER_SPEED_MILLI, 1000);
            proof {
                lemma_scaled_abs_le(rx as int, PLAYER_SPEED_MILLI as int, 1000, 10_000_000);
                lemma_scaled_abs_le(rz as int, PLAYER_SPEED_MILLI as int, 1000, 10_000_000);
            }
            let mut e = world.entities[i];
            e.velocity.x = vx;
            e.velocity.z = vz;
            if m.direction.y > 0 && -GROUND_EPSILON_MILLI < e.velocity.y
                && e.velocity.y < GROUND_EPSILON_MILLI {
                e.velocity.y = JUMP_VELOCITY_MILLI;
            }
            proof {
                assert(0 <= rx * rx <= 4_000_000_000_000
                    && 0 <= rz * rz <= 4_000_000_000_000) by (nonlinear_arith)
                    requires -2_000_000 <= rx <= 2_000_000, -2_000_000 <= rz <= 2_000_000;
            }
            let turns: bool = rx * rx + rz * rz > 100;
            if turns {
                e.transform.facing = Facing { x_milli: rx, z_milli: rz };
            }
            world.entities[i] = e;
            proof {
                assert(e == spec_moved_entity(old(world).entities@[i as int], m));
                let s = final(world).entities@;
                assert forall|a: int, b: int| 0 <= a < b < s.len() implies s[a].id != s[b].id by {
                    assert(old(world).entities@[a].id != old(world).entities@[b].id);
                }
                assert forall|a: int, b: int|
                    0 <= a < b < s.len() && s[a].spec_is_player() && s[b].spec_is_player()
                    implies s[a].spec_owner() != s[b].spec_owner() by {
                    assert(old(world).entities@[a].spec_owner()
                        != old(world).entities@[b].spec_owner());
                }
            }
        },
    }
}

/// The movement command a collated list holds for one client, if any.
pub open spec fn spec_client_move(moves: Seq<(u64, MovePlayer)>, c: u64) -> Option<MovePlayer> {
    if exists|k: int| 0 <= k < moves.len() && (#[trigger] moves[k]).0 == c {
        Some(moves[choose|k: int| 0 <= k < moves.len() && (#[trigger] moves[k]).0 == c].1)
    } else {
        None
    }
}

/// The entity table after the movement stage: each player whose client
/// sent a movement command this tick carries the decided velocity and
/// facing; everything else is untouched.
pub open spec fn spec_moved_table(s: Seq<Entity>, moves: Seq<(u64, MovePlayer)>) -> Seq<
    Entity,
> {
    Seq::new(
        s.len(),
        |i: int|
            if s[i].spec_is_player() && spec_client_move(moves, s[i].spec_owner()) is Some {
                spec_moved_entity(s[i], spec_client_move(moves, s[i].spec_owner())->0)
            } else {
                s[i]
            },
    )
}

/// Apply a whole tick's collated movement commands, one per client.
#[verifier::rlimit(60)]
pub fn apply_moves(world: &mut World, moves: &Vec<(u64, MovePlayer)>)
    requires
        old(world).spec_wf(),
        forall|k: int| 0 <= k < moves@.len() ==> (#[trigger] moves@[k]).1.spec_valid(),
        forall|a: int, b: int| 0 <= a < b < moves@.len() ==> moves@[a].0 != moves@[b].0,
    ensures
        final(world).spec_wf(),
        final(world).next_id == old(world).next_id,
        final(world).spawn_timer_ms == old(world).spawn_timer_ms,
        final(world).entities@ == spec_moved_table(old(world).entities@, moves@),
{
    let n = moves.len();
    let mut k: usize = 0;
    proof {
        assert(spec_moved_table(old(world).entities@, moves@.take(0))
            =~= old(world).entities@);
    }
    while k < n
        invariant
            world.spec_wf(),
            old(world).spec_wf(),
            n == moves@.len(),
            k <= n,
            world.next_id == old(world).next_id,
            world.spawn_timer_ms == old(world).spawn_timer_ms,
            forall|k2: int| 0 <= k2 < n ==> (#[trigger] moves@[k2]).1.spec_valid(),
            forall|a: int, b: int| 0 <= a < b < n ==> moves@[a].0 != moves@[b].0,
            world.entities@ == spec_moved_table(old(world).entities@, moves@.take(k as int)),
        decreases n - k,
    {
        let (client_id, m) = moves[k];
        let ghost s_pre = world.entities@;
        let ghost s0 = old(world).entities@;
        let ghost pre_moves = moves@.take(k as int);
        let ghost post_moves = moves@.take(k + 1);
        proof {
            assert(s_pre.len() == s0.len());
            assert forall|i: int| 0 <= i < s0.len()
                implies ((#[trigger] s_pre[i]).spec_is_player() == s0[i].spec_is_player())
                    && (s0[i].spec_is_player() ==> s_pre[i].spec_owner() == s0[i].spec_owner())
                by {
                assert(s_pre[i] == spec_moved_table(s0, pre_moves)[i]);
            }
        }
        apply_move(world, client_id, m);
        proof {
            assert(post_moves.len() == k + 1 && post_moves[k as int] == moves@[k as int]);
            assert forall|c: u64| c != client_id
                implies #[trigger] spec_client_move(post_moves, c)
                    == spec_client_move(pre_moves, c) by {
                if exists|x: int| 0 <= x < pre_moves.len() && (#[trigger] pre_moves[x]).0 == c {
                    let x = choose|x: int|
                        0 <= x < pre_moves.len() && (#[trigger] pre_moves[x]).0 == c;
                    assert(post_moves[x].0 == c);
                    let y = choose|y: int|
                        0 <= y < post_moves.len() && (#[trigger] post_moves[y]).0 == c;
                    assert(y != k as int);
                    let x2 = choose|x2: int|
                        0 <= x2 < pre_moves.len() && (#[trigger] pre_moves[x2]).0 == c;
                    assert(pre_moves[x2] == post_moves[x2]);
                } else {
                    if exists|y: int|
                        0 <= y < post_moves.len() && (#[trigger] post_moves[y]).0 == c {
                        let y = choose|y: int|
                            0 <= y < post_moves.len() && (#[trigger] post_moves[y]).0 == c;
                        assert(y == k as int);
                        assert(false);
                    }
                }
            }
            assert(spec_client_move(post_moves, client_id) == Some(m)) by {
                assert(post_moves[k as int].0 == client_id);
                let y = choose|y: int|
                    0 <= y < post_moves.len() && (#[trigger] post_moves[y]).0 == client_id;
                if y != k as int {
                    assert(moves@[y].0 != moves@[k as int].0);
                }
            }
            if spec_has_owner(s_pre, client_id) {
                let i = choose|i: int|
                    0 <= i < s_pre.len() && (#[trigger] s_pre[i]).spec_is_player()
                        && s_pre[i].spec_owner() == client_id
                        && world.entities@ == s_pre.update(
                        i,
                        spec_moved_entity(s_pre[i], m),
                    );
                assert(s_pre[i] == spec_moved_table(s0, pre_moves)[i]);
                assert(s_pre[i] == s0[i]) by {
                    if spec_client_move(pre_moves, s0[i].spec_owner()) is Some {
                        let x = choose|x: int|
                            0 <= x < pre_moves.len()
                                && (#[trigger] pre_moves[x]).0 == s0[i].spec_owner();
                        assert(moves@[x].0 == client_id && x < k);
                        assert(false);
                    }
                }
                assert(world.entities@ =~= spec_moved_table(s0, post_moves));
            } else {
                assert(world.entities@ == s_pre);
                assert forall|i: int| 0 <= i < s0.len()
                    implies #[trigger] spec_moved_table(s0, post_moves)[i]
                        == spec_moved_table(s0, pre_moves)[i] by {
                    if s0[i].spec_is_player() && s0[i].spec_owner() == client_id {
                        assert(s_pre[i].spec_is_player()
                            && s_pre[i].spec_owner() == client_id);
                        assert(false);
                    }
                }
                assert(world.entities@ =~= spec_moved_table(s0, post_moves));
            }
        }
        k = k + 1;
    }
    proof {
        assert(moves@.take(n as int) =~= moves@);
    }
}

/// The entity table after the movement stage, stated directly over the
/// tick's raw command queue: each player whose client queued a valid
/// movement carries the decision of the last one.
pub open spec fn spec_move_stage(
    s: Seq<Entity>,
    cmds: Seq<crate::components::ClientCommand>,
) -> Seq<Entity> {
    Seq::new(
        s.len(),
        |i: int|
            if s[i].spec_is_player() && crate::intake::spec_last_valid_move(
                cmds,
                s[i].spec_owner(),
            ) is Some {
                spec_moved_entity(
                    s[i],
                    crate::intake::spec_last_valid_move(cmds, s[i].spec_owner())->0,
                )
            } else {
                s[i]
            },
    )
}

/// A collated movement list acts exactly as the raw command queue does:
/// last write wins per client, malformed commands dropped.
pub proof fn lemma_collated_moves_agree(
    s: Seq<Entity>,
    cmds: Seq<crate::components::ClientCommand>,
    moves: Seq<(u64, MovePlayer)>,
)
    requires
        crate::intake::spec_moves_collated(cmds, moves),
    ensures
        spec_moved_table(s, moves) == spec_move_stage(s, cmds),
{
    assert forall|c: u64| #[trigger] spec_client_move(moves, c)
        == crate::intake::spec_last_valid_move(cmds, c) by {
        if exists|k: int| 0 <= k < moves.len() && (#[trigger] moves[k]).0 == c {
            let k = choose|k: int| 0 <= k < moves.len() && (#[trigger] moves[k]).0 == c;
            assert(crate::intake::spec_last_valid_move(cmds, moves[k].0) == Some(moves[k].1));
        } else {
            if crate::intake::spec_last_valid_move(cmds, c) is Some {
                let k = choose|k: int| 0 <= k < moves.len() && (#[trigger] moves[k]).0 == c;
                assert(false);
            }
        }
    }
    assert(spec_moved_table(s, moves) =~= spec_move_stage(s, cmds));
}

/// A zero-direction movement command leaves the entity idle: horizontal
/// velocity zero, vertical velocity, transform and everything else
/// untouched.  Sending it any number of times changes nothing beyond
/// what the integrator alone would do with zero velocity.
pub proof fn lemma_zero_move_is_idle(e: Entity, m: MovePlayer)
    requires
        m.direction == (Vec3Milli { x: 0, y: 0, z: 0 }),
        m.spec_valid(),
    ensures
        spec_moved_entity(e, m).transform == e.transform,
        spec_moved_entity(e, m).velocity == (Vec3Milli { x: 0, y: e.velocity.y, z: 0 }),
        spec_moved_entity(spec_moved_entity(e, m), m) == spec_moved_entity(e, m),
        spec_moved_entity(e, m).data == e.data,
        spec_moved_entity(e, m).id == e.id,
{
    assert(m.direction.x * m.camera_yaw.cos_milli == 0) by (nonlinear_arith)
        requires m.direction.x == 0;
    assert(m.direction.z * m.camera_yaw.sin_milli == 0) by (nonlinear_arith)
        requires m.direction.z == 0;
    assert(-m.direction.x * m.camera_yaw.sin_milli == 0) by (nonlinear_arith)
        requires m.direction.x == 0;
    assert(m.direction.z * m.camera_yaw.cos_milli == 0) by (nonlinear_arith)
        requires m.direction.z == 0;
    assert(spec_rot_x(m) == 0 && spec_rot_z(m) == 0);
    assert(spec_move_vx(m) == 0 && spec_move_vz(m) == 0);
    assert(sq(0) == 0) by (nonlinear_arith);
}

} // verus!
