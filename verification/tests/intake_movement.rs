use zombrise::components::{ClientCommand, CommandKind, DamageFlash, Facing, Health, MovePlayer,
    PlayerAttack, Transform, YawMilli};
use zombrise::intake::{collate_commands, input_direction};
use zombrise::movement::apply_move;
use zombrise::vec3::Vec3Milli;
use zombrise::world::{Entity, EntityData, World};

fn mv(x: i64, y: i64, z: i64, yaw: YawMilli) -> MovePlayer {
    MovePlayer { direction: Vec3Milli { x, y, z }, camera_yaw: yaw }
}

fn move_cmd(client_id: u64, m: MovePlayer) -> ClientCommand {
    ClientCommand { client_id, kind: CommandKind::Move(m) }
}

fn attack_cmd(client_id: u64) -> ClientCommand {
    ClientCommand { client_id, kind: CommandKind::Attack(PlayerAttack) }
}

fn one_player_world(owner: u64) -> World {
    World {
        entities: vec![Entity {
            id: 0,
            data: EntityData::Player {
                owner,
                health: Health { current: 100_000, max: 100_000 },
                flash: DamageFlash { timer_ms: 0 },
            },
            transform: Transform {
                position: Vec3Milli { x: 0, y: 500, z: 0 },
                facing: Facing { x_milli: 0, z_milli: -1000 },
                scale_milli: 1000,
            },
            velocity: Vec3Milli { x: 0, y: 0, z: 0 },
        }],
        next_id: 1,
        spawn_timer_ms: 0,
    }
}

/// Duplicate movement commands within a tick: the last valid one wins.
#[test]
fn intake_last_move_wins_per_client() {
    let yaw = YawMilli::neutral();
    let cmds = vec![
        move_cmd(1, mv(1000, 0, 0, yaw)),
        move_cmd(2, mv(0, 0, 1000, yaw)),
        move_cmd(1, mv(-1000, 0, 0, yaw)),
    ];
    let (moves, attacks) = collate_commands(&cmds);
    assert_eq!(attacks.len(), 0);
    assert_eq!(moves.len(), 2);
    let of_1 = moves.iter().find(|p| p.0 == 1).unwrap();
    assert_eq!(of_1.1.direction.x, -1000);
    let of_2 = moves.iter().find(|p| p.0 == 2).unwrap();
    assert_eq!(of_2.1.direction.z, 1000);
}

/// A malformed movement (unbounded direction) is dropped silently; the
/// earlier valid one stands.
#[test]
fn intake_drops_malformed_moves() {
    let yaw = YawMilli::neutral();
    let cmds = vec![
        move_cmd(1, mv(1000, 0, 0, yaw)),
        move_cmd(1, mv(9_000_000, 0, 0, yaw)),
    ];
    let (moves, _) = collate_commands(&cmds);
    assert_eq!(moves.len(), 1);
    assert_eq!(moves[0].1.direction.x, 1000);
}

/// Attacks are kept in arrival order, one entry per request.
#[test]
fn intake_keeps_attacks_in_order() {
    let yaw = YawMilli::neutral();
    let cmds = vec![
        attack_cmd(3),
        move_cmd(1, mv(0, 0, 1000, yaw)),
        attack_cmd(1),
        attack_cmd(3),
    ];
    let (_, attacks) = collate_commands(&cmds);
    assert_eq!(attacks, vec![3, 1, 3]);
}

/// The four direction keys encode a heading; opposite keys cancel.
#[test]
fn input_direction_encodes_keys() {
    let d = input_direction(true, false, false, true);
    assert_eq!((d.x, d.y, d.z), (1000, 0, -1000));
    let cancelled = input_direction(true, true, true, true);
    assert_eq!((cancelled.x, cancelled.y, cancelled.z), (0, 0, 0));
}

/// Forward under the neutral camera: full speed down the -z axis, and
/// the entity turns to face its heading.
#[test]
fn move_sets_velocity_from_heading() {
    let mut w = one_player_world(1);
    apply_move(&mut w, 1, mv(0, 0, -1000, YawMilli::neutral()));
    let e = &w.entities[0];
    assert_eq!(e.velocity.x, 0);
    assert_eq!(e.velocity.z, -5000);
    assert_eq!(e.transform.facing.x_milli, 0);
    assert_eq!(e.transform.facing.z_milli, -1000);
}

/// The camera yaw rotates the heading: forward under a quarter turn
/// moves along -x.
#[test]
fn move_rotates_heading_by_camera_yaw() {
    let mut w = one_player_world(1);
    let quarter = YawMilli { cos_milli: 0, sin_milli: 1000 };
    apply_move(&mut w, 1, mv(0, 0, -1000, quarter));
    let e = &w.entities[0];
    assert_eq!(e.velocity.x, -5000);
    assert_eq!(e.velocity.z, 0);
}

/// A jump request grants the vertical impulse only near the ground.
#[test]
fn jump_is_gated_by_the_ground_check() {
    let mut w = one_player_world(1);
    apply_move(&mut w, 1, mv(0, 1000, 0, YawMilli::neutral()));
    assert_eq!(w.entities[0].velocity.y, 5000, "grounded: impulse granted");

    let mut w2 = one_player_world(1);
    w2.entities[0].velocity.y = 3000;
    apply_move(&mut w2, 1, mv(0, 1000, 0, YawMilli::neutral()));
    assert_eq!(w2.entities[0].velocity.y, 3000, "airborne: no impulse");
}

/// A zero-direction movement leaves the transform untouched however
/// often it is sent: only the integrator, fed zero velocity, decides.
#[test]
fn zero_move_is_idempotent() {
    let mut w = one_player_world(1);
    let zero = mv(0, 0, 0, YawMilli::neutral());
    apply_move(&mut w, 1, zero);
    let once = w.entities[0];
    for _ in 0..5 {
        apply_move(&mut w, 1, zero);
    }
    assert_eq!(w.entities[0], once);
    assert_eq!(once.velocity.x, 0);
    assert_eq!(once.velocity.z, 0);
    assert_eq!(once.transform, one_player_world(1).entities[0].transform);
}

/// A diagonal heading is applied as sent, not re-normalized: the
/// server trusts the client's heading lengths within the validation
/// bounds.
#[test]
fn diagonal_move_scales_each_axis() {
    let mut w = one_player_world(1);
    apply_move(&mut w, 1, mv(1000, 0, -1000, YawMilli::neutral()));
    let e = &w.entities[0];
    assert_eq!(e.velocity.x, 5000);
    assert_eq!(e.velocity.z, -5000);
}

/// A movement from a client with no live player is a no-op.
#[test]
fn move_from_unmapped_client_is_ignored() {
    let mut w = one_player_world(1);
    let before = w.entities[0];
    apply_move(&mut w, 42, mv(1000, 0, 0, YawMilli::neutral()));
    assert_eq!(w.entities[0], before);
}
