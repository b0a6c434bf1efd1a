//! Command intake: drain the tick's pending client messages into at most
//! one validated movement per client (last write wins) and the ordered
//! list of attack requests.

use vstd::prelude::*;
use crate::components::{ClientCommand, CommandKind, MovePlayer};
use crate::vec3::Vec3Milli;

verus! {

/// The last valid `Move` a client queued this tick, if any: later
/// duplicates supersede earlier ones, malformed ones are dropped.
pub open spec fn spec_last_valid_move(cmds: Seq<ClientCommand>, client_id: u64) -> Option<
    MovePlayer,
>
    decreases cmds.len(),
{
    if cmds.len() == 0 {
        None
    } else {
        let last = cmds.last();
        if last.client_id == client_id && last.kind is Move && last.kind->Move_0.spec_valid() {
            Some(last.kind->Move_0)
        } else {
            spec_last_valid_move(cmds.drop_last(), client_id)
        }
    }
}

/// The senders of the tick's attack requests, in arrival order; each is
/// resolved exactly once.
pub open spec fn spec_attackers(cmds: Seq<ClientCommand>) -> Seq<u64>
    decreases cmds.len(),
{
    if cmds.len() == 0 {
        Seq::empty()
    } else if cmds.last().kind is Attack {
        spec_attackers(cmds.drop_last()).push(cmds.last().client_id)
    } else {
        spec_attackers(cmds.drop_last())
    }
}

/// Each client appears at most once.
pub open spec fn spec_move_clients_unique(moves: Seq<(u64, MovePlayer)>) -> bool {
    forall|i: int, j: int| 0 <= i < j < moves.len() ==> moves[i].0 != moves[j].0
}

/// The collated movement list is exactly the set of clients with a valid
/// `Move` this tick, each mapped to its last one.
pub open spec fn spec_moves_collated(
    cmds: Seq<ClientCommand>,
    moves: Seq<(u64, MovePlayer)>,
) -> bool {
    &&& spec_move_clients_unique(moves)
    &&& forall|k: int|
        0 <= k < moves.len() ==> spec_last_valid_move(cmds, (#[trigger] moves[k]).0)
            == Some(moves[k].1)
    &&& forall|c: u64|
        #[trigger] spec_last_valid_move(cmds, c) is Some ==> exists|k: int|
            0 <= k < moves.len() && (#[trigger] moves[k]).0 == c
}

/// Drain the pending commands of one tick: one validated movement per
/// client, last write wins, and every attack in order.
pub fn collate_commands(cmds: &Vec<ClientCommand>) -> (r: (Vec<(u64, MovePlayer)>, Vec<u64>))
    ensures
        spec_moves_collated(cmds@, r.0@),
        r.1@ == spec_attackers(cmds@),
{
    let mut moves: Vec<(u64, MovePlayer)> = Vec::new();
    let mut attacks: Vec<u64> = Vec::new();
    let mut i: usize = 0;
    proof {
        assert(cmds@.take(0) =~= Seq::<ClientCommand>::empty());
    }
    while i < cmds.len()
        invariant
            i <= cmds@.len(),
            spec_moves_collated(cmds@.take(i as int), moves@),
            attacks@ == spec_attackers(cmds@.take(i as int)),
        decreases cmds@.len() - i,
    {
        proof {
            assert(cmds@.take(i + 1).drop_last() =~= cmds@.take(i as int));
            assert(cmds@.take(i + 1).last() == cmds@[i as int]);
        }
        let cmd = cmds[i];
        match cmd.kind {
            CommandKind::Attack(_) => {
                attacks.push(cmd.client_id);
                proof {
                    let pre = cmds@.take(i as int);
                    let post = cmds@.take(i + 1);
                    assert(post.last() == cmd && post.drop_last() =~= pre);
                    assert forall|c: u64| #[trigger] spec_last_valid_move(post, c)
                        == spec_last_valid_move(pre, c) by {}
                }
            },
            CommandKind::Move(m) => {
                if m.is_valid() {
                    let ghost moves0 = moves@;
                    let mut j: usize = 0;
                    let mut replaced: bool = false;
                    while j < moves.len()
                        invariant
                            j <= moves@.len(),
                            moves@.len() == moves0.len(),
                            spec_move_clients_unique(moves0),
                            !replaced ==> moves@ == moves0,
                            !replaced ==> forall|k: int|
                                0 <= k < j ==> (#[trigger] moves0[k]).0 != cmd.client_id,
                            replaced ==> exists|k: int|
                                0 <= k < j && (#[trigger] moves0[k]).0 == cmd.client_id
                                    && moves@ == moves0.update(k, (cmd.client_id, m)),
                        decreases moves@.len() - j,
                    {
                        if !replaced && moves[j].0 == cmd.client_id {
                            moves[j] = (cmd.client_id, m);
                            replaced = true;
                            proof {
                                assert(moves@ == moves0.update(j as int, (cmd.client_id, m)));
                            }
                        }
                        j = j + 1;
                    }
                    if !replaced {
                        moves.push((cmd.client_id, m));
                    }
                    proof {
                        let pre = cmds@.take(i as int);
                        let post = cmds@.take(i + 1);
                        assert(post.last() == cmd);
                        assert(post.drop_last() =~= pre);
                        let kc: int = if replaced {
                            choose|k: int|
                                0 <= k < moves0.len() && (#[trigger] moves0[k]).0 == cmd.client_id
                                    && moves@ == moves0.update(k, (cmd.client_id, m))
                        } else {
                            moves@.len() - 1
                        };
                        assert(moves@[kc] == (cmd.client_id, m));
                        assert forall|k2: int| 0 <= k2 < moves@.len() && k2 != kc
                            implies #[trigger] moves@[k2] == moves0[k2]
                                && moves@[k2].0 != cmd.client_id by {
                            if replaced {
                                assert(moves0[k2].0 != moves0[kc].0);
                            }
                        }
                        assert(spec_last_valid_move(post, cmd.client_id) == Some(m));
                        assert forall|c: u64| c != cmd.client_id
                            implies #[trigger] spec_last_valid_move(post, c)
                                == spec_last_valid_move(pre, c) by {}
                        assert forall|k2: int| 0 <= k2 < moves@.len()
                            implies spec_last_valid_move(post, (#[trigger] moves@[k2]).0)
                                == Some(moves@[k2].1) by {
                            if k2 != kc {
                                assert(spec_last_valid_move(pre, moves0[k2].0)
                                    == Some(moves0[k2].1));
                            }
                        }
                        assert forall|c: u64| #[trigger] spec_last_valid_move(post, c) is Some
                            implies exists|k2: int|
                            0 <= k2 < moves@.len() && (#[trigger] moves@[k2]).0 == c by {
                            if c == cmd.client_id {
                                assert(0 <= kc < moves@.len() && moves@[kc].0 == c);
                            } else {
                                assert(spec_last_valid_move(pre, c) is Some);
                                let kw = choose|k2: int|
                                    0 <= k2 < moves0.len() && (#[trigger] moves0[k2]).0 == c;
                                assert(moves@[kw].0 == c);
                            }
                        }
                        assert(spec_move_clients_unique(moves@));
                    }
                } else {
                    proof {
                        let pre = cmds@.take(i as int);
                        let post = cmds@.take(i + 1);
                        assert(post.last() == cmd && post.drop_last() =~= pre);
                        assert forall|c: u64| #[trigger] spec_last_valid_move(post, c)
                            == spec_last_valid_move(pre, c) by {}
                    }
                }
            },
        }
        i = i + 1;
    }
    proof {
        assert(cmds@.take(cmds@.len() as int) =~= cmds@);
    }
    (moves, attacks)
}

/// A collated movement is always one the validator admitted.
pub proof fn lemma_last_valid_move_is_valid(cmds: Seq<ClientCommand>, client_id: u64)
    ensures
        spec_last_valid_move(cmds, client_id) matches Some(m) ==> m.spec_valid(),
    decreases cmds.len(),
{
    if cmds.len() > 0 {
        lemma_last_valid_move_is_valid(cmds.drop_last(), client_id);
    }
}

/// The horizontal heading encoded by four direction keys, one world unit
/// per axis; opposite keys cancel.
pub fn input_direction(up: bool, down: bool, left: bool, right: bool) -> (r: Vec3Milli)
    ensures
        r.x == (if right { 1000int } else { 0int }) - (if left { 1000int } else { 0int }),
        r.z == (if down { 1000int } else { 0int }) - (if up { 1000int } else { 0int }),
        r.y == 0,
{
    let x: i64 = (if right { 1000i64 } else { 0i64 }) - (if left { 1000i64 } else { 0i64 });
    let z: i64 = (if down { 1000i64 } else { 0i64 }) - (if up { 1000i64 } else { 0i64 });
    Vec3Milli { x, y: 0, z }
}

} // verus!
