//! The zombie controller: each tick, every zombie either chases the
//! nearest player within range or wanders, recomputed from current
//! positions alone — a reactive controller, not a stored state machine.

use vstd::prelude::*;
use crate::components::{Facing, Transform};
use crate::rng::random_u64;
use crate::units::{CHASE_RANGE_MILLI, WANDER_KEEP_THRESHOLD_SQ, WANDER_REDRAW_PERCENT,
    ZOMBIE_SPEED_MILLI};
use crate::vec3::{dist_sq, isqrt_u64, lemma_component_le_dist, lemma_component_le_isqrt,
    scaled_toward, spec_dist_sq, spec_isqrt, spec_scaled, sq, Vec3Milli};
use crate::world::{Entity, World};

verus! {

/// A pair of horizontal components scaled to `speed` by the square root
/// of `norm_sq`; a degenerate (zero-length) vector scales to rest.
pub open spec fn spec_scale_by_norm(dx: int, dz: int, norm_sq: int, speed: int) -> (int, int) {
    let len = spec_isqrt(norm_sq);
    if len == 0 {
        (0, 0)
    } else {
        (spec_scaled(dx, speed, len), spec_scaled(dz, speed, len))
    }
}

/// Horizontal chase velocity: the offset to the player, normalized by
/// the full three-dimensional distance and scaled to zombie speed.
pub open spec fn spec_chase_v(zpos: Vec3Milli, ppos: Vec3Milli) -> (int, int) {
    spec_scale_by_norm(
        ppos.x - zpos.x,
        ppos.z - zpos.z,
        spec_dist_sq(zpos, ppos),
        ZOMBIE_SPEED_MILLI as int,
    )
}

/// A wandering zombie redraws its heading with small probability, or
/// whenever it is practically stationary.
pub open spec fn spec_redraws(r1: u64, v: Vec3Milli) -> bool {
    ||| (r1 % 100) < WANDER_REDRAW_PERCENT
    ||| sq(v.x as int) + sq(v.y as int) + sq(v.z as int) <= WANDER_KEEP_THRESHOLD_SQ
}

/// One freshly drawn heading component, in `[-1000, 1000]` milli-units.
pub open spec fn spec_drawn_component(r: u64) -> int {
    (r % 2001) - 1000
}

/// The velocity of a zombie that keeps wandering along its prior
/// heading, re-normalized to zombie speed.
pub open spec fn spec_keep_v(v: Vec3Milli) -> (int, int) {
    spec_scale_by_norm(
        v.x as int,
        v.z as int,
        sq(v.x as int) + sq(v.y as int) + sq(v.z as int),
        ZOMBIE_SPEED_MILLI as int,
    )
}

/// The velocity of a zombie that redrew its heading from two draws.
pub open spec fn spec_drawn_v(r2: u64, r3: u64) -> (int, int) {
    let wx = spec_drawn_component(r2);
    let wz = spec_drawn_component(r3);
    spec_scale_by_norm(wx, wz, sq(wx) + sq(wz), ZOMBIE_SPEED_MILLI as int)
}

/// An entity with its horizontal velocity replaced; it turns to face the
/// new heading unless that heading is zero.  Vertical velocity, position,
/// scale and components are untouched.
pub open spec fn spec_with_hvel(e: Entity, vx: int, vz: int) -> Entity {
    Entity {
        velocity: Vec3Milli { x: vx as i64, y: e.velocity.y, z: vz as i64 },
        transform: Transform {
            facing: if vx != 0 || vz != 0 {
                Facing { x_milli: vx as i64, z_milli: vz as i64 }
            } else {
                e.transform.facing
            },
            ..e.transform
        },
        ..e
    }
}

/// A zombie that chases the player at `ppos`.
pub open spec fn spec_chased_zombie(e: Entity, ppos: Vec3Milli) -> Entity {
    let (vx, vz) = spec_chase_v(e.transform.position, ppos);
    spec_with_hvel(e, vx, vz)
}

/// A zombie that wanders under the tick's three draws: the first decides
/// whether to redraw the heading, the other two are the new heading.
pub open spec fn spec_wandered_zombie(e: Entity, r1: u64, r2: u64, r3: u64) -> Entity {
    if spec_redraws(r1, e.velocity) {
        let (vx, vz) = spec_drawn_v(r2, r3);
        spec_with_hvel(e, vx, vz)
    } else {
        let (vx, vz) = spec_keep_v(e.velocity);
        spec_with_hvel(e, vx, vz)
    }
}

/// `s[j]` is the player elected as nearest to `zpos`: no player is
/// strictly nearer, and every earlier player is strictly farther, so
/// ties go to the lowest index.
pub open spec fn spec_is_nearest(s: Seq<Entity>, zpos: Vec3Milli, j: int) -> bool {
    &&& 0 <= j < s.len()
    &&& s[j].spec_is_player()
    &&& forall|k: int|
        0 <= k < s.len() && (#[trigger] s[k]).spec_is_player()
            ==> spec_dist_sq(zpos, s[j].transform.position)
            <= spec_dist_sq(zpos, s[k].transform.position)
    &&& forall|k: int|
        0 <= k < j && (#[trigger] s[k]).spec_is_player()
            ==> spec_dist_sq(zpos, s[k].transform.position)
            > spec_dist_sq(zpos, s[j].transform.position)
}

/// Some player stands within chase range of `zpos`.
pub open spec fn spec_player_in_chase_range(s: Seq<Entity>, zpos: Vec3Milli) -> bool {
    exists|k: int|
        0 <= k < s.len() && (#[trigger] s[k]).spec_is_player()
            && spec_dist_sq(zpos, s[k].transform.position)
            < sq(CHASE_RANGE_MILLI as int)
}

/// A chasing zombie moves toward the player and never faster than
/// zombie speed; when the offset lies along one axis the speed is
/// exact.  In between, fixed-point truncation can only shorten the
/// vector, never turn it around.
pub proof fn lemma_chase_points_at_player(zpos: Vec3Milli, ppos: Vec3Milli)
    ensures
        -ZOMBIE_SPEED_MILLI <= spec_chase_v(zpos, ppos).0 <= ZOMBIE_SPEED_MILLI,
        -ZOMBIE_SPEED_MILLI <= spec_chase_v(zpos, ppos).1 <= ZOMBIE_SPEED_MILLI,
        ppos.x - zpos.x >= 0 ==> spec_chase_v(zpos, ppos).0 >= 0,
        ppos.x - zpos.x <= 0 ==> spec_chase_v(zpos, ppos).0 <= 0,
        ppos.z - zpos.z >= 0 ==> spec_chase_v(zpos, ppos).1 >= 0,
        ppos.z - zpos.z <= 0 ==> spec_chase_v(zpos, ppos).1 <= 0,
        ppos.y == zpos.y && ppos.z == zpos.z && ppos.x > zpos.x ==> spec_chase_v(zpos, ppos)
            == (ZOMBIE_SPEED_MILLI as int, 0int),
{
    let dx = ppos.x - zpos.x;
    let dz = ppos.z - zpos.z;
    let dy = ppos.y - zpos.y;
    let dsq = spec_dist_sq(zpos, ppos);
    crate::vec3::lemma_sq_nonneg(dx);
    crate::vec3::lemma_sq_nonneg(dy);
    crate::vec3::lemma_sq_nonneg(dz);
    crate::vec3::lemma_sq_neg(dx);
    crate::vec3::lemma_sq_neg(dy);
    crate::vec3::lemma_sq_neg(dz);
    assert(sq(zpos.x - ppos.x) == sq(dx) && sq(zpos.y - ppos.y) == sq(dy)
        && sq(zpos.z - ppos.z) == sq(dz));
    assert(dsq == sq(dx) + sq(dy) + sq(dz));
    let len = spec_isqrt(dsq);
    if exists|r: int| 0 <= r && #[trigger] sq(r) <= dsq < sq(r + 1) {
        let r = choose|r: int| 0 <= r && #[trigger] sq(r) <= dsq < sq(r + 1);
        crate::vec3::lemma_isqrt_is(dsq, r);
        lemma_chase_components(dx, dz, dsq, r);
        if dy == 0 && dz == 0 && dx > 0 {
            assert(sq(0int) == 0) by (nonlinear_arith);
            assert(dsq == sq(dx));
            assert(sq(dx) <= dsq < sq(dx + 1)) by (nonlinear_arith)
                requires dsq == sq(dx), dx > 0;
            crate::vec3::lemma_isqrt_is(dsq, dx);
            assert((dx * ZOMBIE_SPEED_MILLI) / dx == ZOMBIE_SPEED_MILLI as int) by {
                vstd::arithmetic::div_mod::lemma_div_multiples_vanish(
                    ZOMBIE_SPEED_MILLI as int,
                    dx,
                );
                assert(dx * ZOMBIE_SPEED_MILLI == ZOMBIE_SPEED_MILLI * dx)
                    by (nonlinear_arith);
            }
            assert((0int * ZOMBIE_SPEED_MILLI) / dx == 0int) by {
                assert(0int * ZOMBIE_SPEED_MILLI == 0int) by (nonlinear_arith);
                vstd::arithmetic::div_mod::lemma_div_of0(dx);
            }
        }
    } else {
        // Every nonnegative integer has an integer square root; produce
        // the witness by scanning downward is unnecessary: dsq >= 0 and
        // squares grow without bound, so a witness always exists.
        lemma_isqrt_exists(dsq);
        assert(false);
    }
}

/// Every nonnegative integer has an integer square root.
proof fn lemma_isqrt_exists(n: int)
    requires
        0 <= n,
    ensures
        exists|r: int| 0 <= r && #[trigger] sq(r) <= n < sq(r + 1),
    decreases n,
{
    if n == 0 {
        assert(sq(0) <= 0 < sq(1)) by (nonlinear_arith);
        assert(0 <= 0int && sq(0int) <= n < sq(0int + 1));
    } else {
        lemma_isqrt_exists(n - 1);
        let r = choose|r: int| 0 <= r && #[trigger] sq(r) <= n - 1 < sq(r + 1);
        if n < sq(r + 1) {
            assert(0 <= r && sq(r) <= n < sq(r + 1));
        } else {
            assert(n == sq(r + 1));
            assert(sq(r + 1) <= n < sq(r + 2)) by (nonlinear_arith)
                requires n == sq(r + 1), 0 <= r;
            assert(0 <= r + 1 && sq(r + 1) <= n < sq((r + 1) + 1));
        }
    }
}

/// Sign and magnitude of the scaled chase components.
proof fn lemma_chase_components(dx: int, dz: int, dsq: int, len: int)
    requires
        0 <= len,
        sq(len) <= dsq < sq(len + 1),
        sq(dx) <= dsq,
        sq(dz) <= dsq,
    ensures
        len > 0 ==> -ZOMBIE_SPEED_MILLI <= spec_scaled(dx, ZOMBIE_SPEED_MILLI as int, len)
            <= ZOMBIE_SPEED_MILLI,
        len > 0 ==> -ZOMBIE_SPEED_MILLI <= spec_scaled(dz, ZOMBIE_SPEED_MILLI as int, len)
            <= ZOMBIE_SPEED_MILLI,
        len > 0 && dx >= 0 ==> spec_scaled(dx, ZOMBIE_SPEED_MILLI as int, len) >= 0,
        len > 0 && dx <= 0 ==> spec_scaled(dx, ZOMBIE_SPEED_MILLI as int, len) <= 0,
        len > 0 && dz >= 0 ==> spec_scaled(dz, ZOMBIE_SPEED_MILLI as int, len) >= 0,
        len > 0 && dz <= 0 ==> spec_scaled(dz, ZOMBIE_SPEED_MILLI as int, len) <= 0,
{
    if len > 0 {
        lemma_component_le_isqrt(dx, dsq, len);
        lemma_component_le_isqrt(dz, dsq, len);
        crate::vec3::lemma_scaled_in_speed(dx, ZOMBIE_SPEED_MILLI as int, len);
        crate::vec3::lemma_scaled_in_speed(dz, ZOMBIE_SPEED_MILLI as int, len);
    }
}

/// Find the nearest player: the first index attaining the least
/// squared distance.
fn nearest_player(world: &World, zpos: Vec3Milli) -> (r: Option<(usize, u64)>)
    requires
        world.spec_wf(),
        zpos.spec_in_bounds(),
    ensures
        match r {
            None => forall|k: int|
                0 <= k < world.entities@.len()
                    ==> !(#[trigger] world.entities@[k]).spec_is_player(),
            Some((j, d)) => spec_is_nearest(world.entities@, zpos, j as int)
                && d == spec_dist_sq(zpos, world.entities@[j as int].transform.position),
        },
{
    let mut best: Option<(usize, u64)> = None;
    let mut j: usize = 0;
    while j < world.entities.len()
        invariant
            world.spec_wf(),
            zpos.spec_in_bounds(),
            j <= world.entities@.len(),
            match best {
                None => forall|k: int|
                    0 <= k < j ==> !(#[trigger] world.entities@[k]).spec_is_player(),
                Some((b, d)) => b < j && world.entities@[b as int].spec_is_player()
                    && d == spec_dist_sq(zpos, world.entities@[b as int].transform.position)
                    && (forall|k: int|
                        0 <= k < j && (#[trigger] world.entities@[k]).spec_is_player()
                            ==> d as int
                            <= spec_dist_sq(zpos, world.entities@[k].transform.position))
                    && (forall|k: int|
                        0 <= k < b && (#[trigger] world.entities@[k]).spec_is_player()
                            ==> spec_dist_sq(zpos, world.entities@[k].transform.position)
                            > d as int),
            },
        decreases world.entities@.len() - j,
    {
        let e = &world.entities[j];
        if e.is_player() {
            let d = dist_sq(zpos, e.transform.position);
            match best {
                None => {
                    best = Some((j, d));
                },
                Some((_, bd)) => {
                    if d < bd {
                        best = Some((j, d));
                    }
                },
            }
        }
        j = j + 1;
    }
    best
}

/// Scale `(dx, dz)` to `speed` by the root of `norm_sq`, with
/// normalize-or-zero semantics for the degenerate vector.
fn scale_by_norm(dx: i64, dz: i64, norm_sq: u64, speed: i64) -> (r: (i64, i64))
    requires
        -2_000_000_000 <= dx <= 2_000_000_000,
        -2_000_000_000 <= dz <= 2_000_000_000,
        0 <= speed <= 100_000,
        sq(dx as int) <= norm_sq as int,
        sq(dz as int) <= norm_sq as int,
    ensures
        (r.0 as int, r.1 as int) == spec_scale_by_norm(
            dx as int,
            dz as int,
            norm_sq as int,
            speed as int,
        ),
        -speed <= r.0 <= speed,
        -speed <= r.1 <= speed,
{
    let len = isqrt_u64(norm_sq);
    if len == 0 {
        (0, 0)
    } else {
        proof {
            lemma_component_le_isqrt(dx as int, norm_sq as int, len as int);
            lemma_component_le_isqrt(dz as int, norm_sq as int, len as int);
        }
        let vx = scaled_toward(dx, speed, len);
        let vz = scaled_toward(dz, speed, len);
        (vx, vz)
    }
}

/// One controller iteration extends the decided prefix by one entity.
#[verifier::rlimit(60)]
#[verifier::spinoff_prover]
proof fn lemma_ai_prefix_step(s0: Seq<Entity>, s_pre: Seq<Entity>, s_post: Seq<Entity>, i: int)
    requires
        spec_ai_prefix(s0, s_pre, i),
        0 <= i < s0.len(),
        s0[i].spec_is_zombie(),
        s_post.len() == s_pre.len(),
        forall|k: int| 0 <= k < s_pre.len() && k != i ==> #[trigger] s_post[k] == s_pre[k],
        spec_player_in_chase_range(s_pre, s_pre[i].transform.position) ==> exists|j: int|
            spec_is_nearest(s_pre, s_pre[i].transform.position, j) && s_post[i]
                == spec_chased_zombie(s_pre[i], s_pre[j].transform.position),
        !spec_player_in_chase_range(s_pre, s_pre[i].transform.position) ==> exists|
            r1: u64,
            r2: u64,
            r3: u64,
        | s_post[i] == spec_wandered_zombie(s_pre[i], r1, r2, r3),
    ensures
        spec_ai_prefix(s0, s_post, i + 1),
{
    let zpos = s0[i].transform.position;
    assert(s_pre[i] == s0[i]);
    lemma_decisions_transfer(s_pre, s0, zpos);
    if spec_player_in_chase_range(s0, zpos) {
        let j = choose|j: int|
            spec_is_nearest(s_pre, zpos, j) && s_post[i] == spec_chased_zombie(
                s_pre[i],
                s_pre[j].transform.position,
            );
        assert(spec_is_nearest(s0, zpos, j));
        assert(s_post[i] == spec_chased_zombie(s0[i], s0[j].transform.position));
        assert(s_post[i].data == s0[i].data && s_post[i].transform.position
            == s0[i].transform.position);
    } else {
        let (r1, r2, r3) = choose|r1: u64, r2: u64, r3: u64|
            s_post[i] == spec_wandered_zombie(s_pre[i], r1, r2, r3);
        assert(s_post[i] == spec_wandered_zombie(s0[i], r1, r2, r3));
        assert(s_post[i].data == s0[i].data && s_post[i].transform.position
            == s0[i].transform.position);
    }
}

/// The controller's loop invariant: the first `i` entities already
/// carry their decided state, the rest still carry their entry state,
/// and kinds and positions agree throughout.
pub open spec fn spec_ai_prefix(s0: Seq<Entity>, s: Seq<Entity>, i: int) -> bool {
    &&& s.len() == s0.len()
    &&& forall|k: int| i <= k < s0.len() ==> #[trigger] s[k] == s0[k]
    &&& forall|k: int|
        0 <= k < s0.len() ==> (#[trigger] s[k]).data == s0[k].data
            && s[k].transform.position == s0[k].transform.position
    &&& forall|k: int|
        0 <= k < i && !(#[trigger] s0[k]).spec_is_zombie() ==> s[k] == s0[k]
    &&& forall|k: int|
        0 <= k < i && (#[trigger] s0[k]).spec_is_zombie()
            && spec_player_in_chase_range(s0, s0[k].transform.position) ==> exists|j: int|
            spec_is_nearest(s0, s0[k].transform.position, j) && s[k] == spec_chased_zombie(
                s0[k],
                s0[j].transform.position,
            )
    &&& forall|k: int|
        0 <= k < i && (#[trigger] s0[k]).spec_is_zombie()
            && !spec_player_in_chase_range(s0, s0[k].transform.position) ==> exists|
            r1: u64,
            r2: u64,
            r3: u64,
        |
            s[k] == spec_wandered_zombie(s0[k], r1, r2, r3)
}

/// Run the zombie controller over the whole world.  Each zombie within
/// Decision invariance: chase-range membership and the elected nearest
/// player depend only on entity kinds and positions.
pub proof fn lemma_decisions_transfer(s1: Seq<Entity>, s2: Seq<Entity>, zpos: Vec3Milli)
    requires
        s1.len() == s2.len(),
        forall|k: int|
            0 <= k < s1.len() ==> (#[trigger] s1[k]).data == s2[k].data
                && s1[k].transform.position == s2[k].transform.position,
    ensures
        spec_player_in_chase_range(s1, zpos) == spec_player_in_chase_range(s2, zpos),
        forall|j: int| spec_is_nearest(s1, zpos, j) == #[trigger] spec_is_nearest(s2, zpos, j),
{
    assert forall|j: int| spec_is_nearest(s1, zpos, j)
        implies #[trigger] spec_is_nearest(s2, zpos, j) by {
        assert forall|k: int| 0 <= k < s2.len() && (#[trigger] s2[k]).spec_is_player()
            implies spec_dist_sq(zpos, s2[j].transform.position)
                <= spec_dist_sq(zpos, s2[k].transform.position) by {
            assert(s1[k].spec_is_player());
        }
        assert forall|k: int| 0 <= k < j && (#[trigger] s2[k]).spec_is_player()
            implies spec_dist_sq(zpos, s2[k].transform.position)
                > spec_dist_sq(zpos, s2[j].transform.position) by {
            assert(s1[k].spec_is_player());
        }
    }
    assert forall|j: int| spec_is_nearest(s2, zpos, j)
        implies #[trigger] spec_is_nearest(s1, zpos, j) by {
        assert forall|k: int| 0 <= k < s1.len() && (#[trigger] s1[k]).spec_is_player()
            implies spec_dist_sq(zpos, s1[j].transform.position)
                <= spec_dist_sq(zpos, s1[k].transform.position) by {
            assert(s2[k].spec_is_player());
        }
        assert forall|k: int| 0 <= k < j && (#[trigger] s1[k]).spec_is_player()
            implies spec_dist_sq(zpos, s1[k].transform.position)
                > spec_dist_sq(zpos, s1[j].transform.position) by {
            assert(s2[k].spec_is_player());
        }
    }
    if spec_player_in_chase_range(s1, zpos) {
        let k = choose|k: int|
            0 <= k < s1.len() && (#[trigger] s1[k]).spec_is_player()
                && spec_dist_sq(zpos, s1[k].transform.position) < sq(CHASE_RANGE_MILLI as int);
        assert(s2[k].spec_is_player()
            && spec_dist_sq(zpos, s2[k].transform.position) < sq(CHASE_RANGE_MILLI as int));
    }
    if spec_player_in_chase_range(s2, zpos) {
        let k = choose|k: int|
            0 <= k < s2.len() && (#[trigger] s2[k]).spec_is_player()
                && spec_dist_sq(zpos, s2[k].transform.position) < sq(CHASE_RANGE_MILLI as int);
        assert(s1[k].spec_is_player()
            && spec_dist_sq(zpos, s1[k].transform.position) < sq(CHASE_RANGE_MILLI as int));
    }
}

/// Decide and apply one zombie's behaviour against the present world.
#[verifier::rlimit(60)]
fn zombie_step(world: &mut World, i: usize)
    requires
        old(world).spec_wf(),
        i < old(world).entities@.len(),
        old(world).entities@[i as int].spec_is_zombie(),
    ensures
        final(world).spec_wf(),
        final(world).next_id == old(world).next_id,
        final(world).spawn_timer_ms == old(world).spawn_timer_ms,
        final(world).entities@.len() == old(world).entities@.len(),
        forall|k: int|
            0 <= k < old(world).entities@.len() && k != i as int
                ==> #[trigger] final(world).entities@[k] == old(world).entities@[k],
        spec_player_in_chase_range(
            old(world).entities@,
            old(world).entities@[i as int].transform.position,
        ) ==> exists|j: int|
            spec_is_nearest(
                old(world).entities@,
                old(world).entities@[i as int].transform.position,
                j,
            ) && final(world).entities@[i as int] == spec_chased_zombie(
                old(world).entities@[i as int],
                old(world).entities@[j].transform.position,
            ),
        !spec_player_in_chase_range(
            old(world).entities@,
            old(world).entities@[i as int].transform.position,
        ) ==> exists|r1: u64, r2: u64, r3: u64|
            final(world).entities@[i as int] == spec_wandered_zombie(
                old(world).entities@[i as int],
                r1,
                r2,
                r3,
            ),
{
    let ghost s_old = old(world).entities@;
    let zpos = world.entities[i].transform.position;
    proof {
        assert(s_old[i as int].spec_wf());
    }
    let nearest = nearest_player(world, zpos);
    let mut do_chase: bool = false;
    let mut target_pos: Vec3Milli = zpos;
    let ghost mut target_j: int = 0;
    match nearest {
        None => {
            proof {
                assert(!spec_player_in_chase_range(s_old, zpos));
            }
        },
        Some((j, d)) => {
            if d < (CHASE_RANGE_MILLI * CHASE_RANGE_MILLI) as u64 {
                target_pos = world.entities[j].transform.position;
                do_chase = true;
                proof {
                    target_j = j as int;
                    assert(spec_is_nearest(s_old, zpos, j as int));
                    assert(spec_player_in_chase_range(s_old, zpos));
                    assert(s_old[j as int].spec_wf());
                }
            } else {
                proof {
                    assert forall|k: int|
                        0 <= k < s_old.len() && (#[trigger] s_old[k]).spec_is_player()
                        implies spec_dist_sq(zpos, s_old[k].transform.position)
                            >= sq(CHASE_RANGE_MILLI as int) by {
                        assert(d as int <= spec_dist_sq(zpos, s_old[k].transform.position));
                    }
                    assert(!spec_player_in_chase_range(s_old, zpos));
                }
            }
        },
    }
    if do_chase {
        let dx: i64 = target_pos.x - zpos.x;
        let dz: i64 = target_pos.z - zpos.z;
        let norm_sq: u64 = dist_sq(zpos, target_pos);
        proof {
            crate::vec3::lemma_sq_nonneg((target_pos.x - zpos.x) as int);
            crate::vec3::lemma_sq_nonneg((target_pos.y - zpos.y) as int);
            crate::vec3::lemma_sq_nonneg((target_pos.z - zpos.z) as int);
            crate::vec3::lemma_sq_neg((zpos.x - target_pos.x) as int);
            crate::vec3::lemma_sq_neg((zpos.y - target_pos.y) as int);
            crate::vec3::lemma_sq_neg((zpos.z - target_pos.z) as int);
            lemma_component_le_dist(
                (target_pos.x - zpos.x) as int,
                sq((target_pos.y - zpos.y) as int) + sq((target_pos.z - zpos.z) as int),
                norm_sq as int,
            );
            lemma_component_le_dist(
                (target_pos.z - zpos.z) as int,
                sq((target_pos.x - zpos.x) as int) + sq((target_pos.y - zpos.y) as int),
                norm_sq as int,
            );
        }
        let (vx, vz) = scale_by_norm(dx, dz, norm_sq, ZOMBIE_SPEED_MILLI);
        set_hvel(world, i, vx, vz);
        proof {
            assert(spec_is_nearest(s_old, zpos, target_j));
            assert(world.entities@[i as int] == spec_chased_zombie(
                s_old[i as int],
                s_old[target_j].transform.position,
            ));
        }
    } else {
        let r1 = random_u64();
        let r2 = random_u64();
        let r3 = random_u64();
        let v = world.entities[i].velocity;
        let hsq: u64 = dist_sq(v, Vec3Milli { x: 0, y: 0, z: 0 });
        if r1 % 100 < WANDER_REDRAW_PERCENT || hsq <= WANDER_KEEP_THRESHOLD_SQ {
            let wx: i64 = (r2 % 2001) as i64 - 1000;
            let wz: i64 = (r3 % 2001) as i64 - 1000;
            proof {
                crate::vec3::lemma_sq_fits(wx as int);
                crate::vec3::lemma_sq_fits(wz as int);
            }
            let wsq: u64 = ((wx * wx) + (wz * wz)) as u64;
            let (vx, vz) = scale_by_norm(wx, wz, wsq, ZOMBIE_SPEED_MILLI);
            set_hvel(world, i, vx, vz);
            proof {
                assert(spec_redraws(r1, s_old[i as int].velocity));
                assert(world.entities@[i as int]
                    == spec_wandered_zombie(s_old[i as int], r1, r2, r3));
            }
        } else {
            proof {
                crate::vec3::lemma_sq_nonneg(v.x as int);
                crate::vec3::lemma_sq_nonneg(v.y as int);
                crate::vec3::lemma_sq_nonneg(v.z as int);
                lemma_component_le_dist(v.x as int, sq(v.y as int) + sq(v.z as int), hsq as int);
                lemma_component_le_dist(v.z as int, sq(v.x as int) + sq(v.y as int), hsq as int);
            }
            let (vx, vz) = scale_by_norm(v.x, v.z, hsq, ZOMBIE_SPEED_MILLI);
            set_hvel(world, i, vx, vz);
            proof {
                assert(!spec_redraws(r1, s_old[i as int].velocity));
                assert(world.entities@[i as int]
                    == spec_wandered_zombie(s_old[i as int], r1, r2, r3));
            }
        }
    }
}

/// The whole controller pass, as a relation between the entity table
/// before and after: non-zombies are untouched; a zombie with a player
/// in chase range chases the elected nearest one; every other zombie
/// wanders under some triple of draws.
pub open spec fn spec_ai_applied(s0: Seq<Entity>, s1: Seq<Entity>) -> bool {
    &&& s1.len() == s0.len()
    &&& forall|i: int|
        0 <= i < s0.len() && !(#[trigger] s0[i]).spec_is_zombie() ==> s1[i] == s0[i]
    &&& forall|i: int|
        0 <= i < s0.len() && (#[trigger] s0[i]).spec_is_zombie()
            && spec_player_in_chase_range(s0, s0[i].transform.position) ==> exists|j: int|
            spec_is_nearest(s0, s0[i].transform.position, j) && s1[i] == spec_chased_zombie(
                s0[i],
                s0[j].transform.position,
            )
    &&& forall|i: int|
        0 <= i < s0.len() && (#[trigger] s0[i]).spec_is_zombie()
            && !spec_player_in_chase_range(s0, s0[i].transform.position) ==> exists|
            r1: u64,
            r2: u64,
            r3: u64,
        |
            s1[i] == spec_wandered_zombie(s0[i], r1, r2, r3)
}

/// Run the zombie controller over the whole world.  Each zombie within
/// chase range of a player moves straight at the nearest one; the rest
/// wander under fresh random draws.  Nothing but zombie horizontal
/// velocities and facings changes.
#[verifier::rlimit(100)]
#[verifier::spinoff_prover]
pub fn ai_step(world: &mut World)
    requires
        old(world).spec_wf(),
    ensures
        final(world).spec_wf(),
        final(world).next_id == old(world).next_id,
        final(world).spawn_timer_ms == old(world).spawn_timer_ms,
        spec_ai_applied(old(world).entities@, final(world).entities@),
{
    let n = world.entities.len();
    let mut i: usize = 0;
    while i < n
        invariant
            world.spec_wf(),
            n == world.entities@.len(),
            n == old(world).entities@.len(),
            i <= n,
            world.next_id == old(world).next_id,
            world.spawn_timer_ms == old(world).spawn_timer_ms,
            spec_ai_prefix(old(world).entities@, world.entities@, i as int),
        decreases n - i,
    {
        let ghost s_entry = old(world).entities@;
        let ghost s_pre = world.entities@;
        let is_z = world.entities[i].is_zombie();
        if is_z {
            zombie_step(world, i);
            proof {
                lemma_ai_prefix_step(s_entry, s_pre, world.entities@, i as int);
            }
        }
        i = i + 1;
    }
}

/// Replace the horizontal velocity of entity `i`, facing the heading.
fn set_hvel(world: &mut World, i: usize, vx: i64, vz: i64)
    requires
        old(world).spec_wf(),
        i < old(world).entities@.len(),
        -1_000_000_000 <= vx <= 1_000_000_000,
        -1_000_000_000 <= vz <= 1_000_000_000,
    ensures
        final(world).spec_wf(),
        final(world).next_id == old(world).next_id,
        final(world).spawn_timer_ms == old(world).spawn_timer_ms,
        final(world).entities@ == old(world).entities@.update(
            i as int,
            spec_with_hvel(old(world).entities@[i as int], vx as int, vz as int),
        ),
{
    let mut e = world.entities[i];
    e.velocity.x = vx;
    e.velocity.z = vz;
    if vx != 0 || vz != 0 {
        e.transform.facing = Facing { x_milli: vx, z_milli: vz };
    }
    world.entities[i] = e;
    proof {
        let s = final(world).entities@;
        assert forall|a: int, b: int| 0 <= a < b < s.len() implies s[a].id != s[b].id by {
            assert(old(world).entities@[a].id != old(world).entities@[b].id);
        }
        assert forall|a: int, b: int|
            0 <= a < b < s.len() && s[a].spec_is_player() && s[b].spec_is_player()
            implies s[a].spec_owner() != s[b].spec_owner() by {
            assert(old(world).entities@[a].spec_owner() != old(world).entities@[b].spec_owner());
        }
    }
}

} // verus!
