//! The replicated component types and the client command envelopes, in
//! the fixed-point model: health in milli-points, timers in milliseconds,
//! geometry in milli-units.

use vstd::prelude::*;
use crate::units::{DEFAULT_HEALTH_MILLI, DIRECTION_LIMIT_MILLI, YAW_UNIT_MILLI};
use crate::vec3::Vec3Milli;

verus! {

/// Marker component of a player entity.
#[derive(Clone, Copy, PartialEq, Eq, Structural, Debug)]
pub struct Player;

/// Marker component of a zombie entity.
#[derive(Clone, Copy, PartialEq, Eq, Structural, Debug)]
pub struct Zombie;

/// Marker component of the ground collider.
#[derive(Clone, Copy, PartialEq, Eq, Structural, Debug)]
pub struct MapMarker;

/// Marker component of a static tree collider.
#[derive(Clone, Copy, PartialEq, Eq, Structural, Debug)]
pub struct TreeMarker;

/// Marker of the presentation-layer camera; replication ignores it.
#[derive(Clone, Copy, PartialEq, Eq, Structural, Debug)]
pub struct MainCamera;

/// The connection that controls a player entity.
#[derive(Clone, Copy, PartialEq, Eq, Structural, Debug)]
pub struct PlayerOwner(pub u64);

/// Hit points of a player, in milli-points, clamped to `[0, max]`.
#[derive(Clone, Copy, PartialEq, Eq, Structural, Debug)]
pub struct Health {
    pub current: u32,
    pub max: u32,
}

impl Health {
    pub open spec fn spec_wf(self) -> bool {
        self.current <= self.max
    }

    /// Subtract `amount`, clamping at zero; `max` never changes.
    pub fn apply_damage(&mut self, amount: u32)
        ensures
            final(self).max == old(self).max,
            final(self).current == if old(self).current >= amount {
                (old(self).current - amount) as u32
            } else {
                0u32
            },
            final(self).current <= old(self).current,
    {
        if self.current >= amount {
            self.current = self.current - amount;
        } else {
            self.current = 0;
        }
    }
}

impl Default for Health {
    /// A fresh player starts at full default health.
    fn default() -> (r: Health)
        ensures
            r.current == DEFAULT_HEALTH_MILLI,
            r.max == DEFAULT_HEALTH_MILLI,
    {
        Health { current: DEFAULT_HEALTH_MILLI, max: DEFAULT_HEALTH_MILLI }
    }
}

/// Countdown timer of the cosmetic damage indicator, in milliseconds.
#[derive(Clone, Copy, PartialEq, Eq, Structural, Debug)]
pub struct DamageFlash {
    pub timer_ms: u32,
}

impl DamageFlash {
    /// Let elapsed time run off the timer, clamping at zero.  The timer
    /// never grows here: only a damage event rewinds it.
    pub fn count_down(&mut self, dt_ms: u32)
        ensures
            final(self).timer_ms == if old(self).timer_ms >= dt_ms {
                (old(self).timer_ms - dt_ms) as u32
            } else {
                0u32
            },
            final(self).timer_ms <= old(self).timer_ms,
    {
        if self.timer_ms >= dt_ms {
            self.timer_ms = self.timer_ms - dt_ms;
        } else {
            self.timer_ms = 0;
        }
    }
}

impl Default for DamageFlash {
    fn default() -> (r: DamageFlash)
        ensures
            r.timer_ms == 0,
    {
        DamageFlash { timer_ms: 0 }
    }
}

/// Horizontal facing direction, the rotation target handed to the
/// rigid-body collaborator.
#[derive(Clone, Copy, PartialEq, Eq, Structural, Debug)]
pub struct Facing {
    pub x_milli: i64,
    pub z_milli: i64,
}

/// Position, facing and uniform scale of an entity.
#[derive(Clone, Copy, PartialEq, Eq, Structural, Debug)]
pub struct Transform {
    pub position: Vec3Milli,
    pub facing: Facing,
    pub scale_milli: i64,
}

impl Transform {
    pub open spec fn spec_wf(self) -> bool {
        self.position.spec_in_bounds()
    }

    /// A transform at a position, facing down the negative z axis at
    /// unit scale.
    pub fn at_position(position: Vec3Milli) -> (r: Transform)
        ensures
            r.position == position,
            r.facing == (Facing { x_milli: 0, z_milli: -1000i64 }),
            r.scale_milli == 1000,
    {
        Transform { position, facing: Facing { x_milli: 0, z_milli: -1000 }, scale_milli: 1000 }
    }
}

/// A camera yaw as a fixed-point rotation: cosine and sine in
/// thousandths, each within one unit.
#[derive(Clone, Copy, PartialEq, Eq, Structural, Debug)]
pub struct YawMilli {
    pub cos_milli: i64,
    pub sin_milli: i64,
}

impl YawMilli {
    pub open spec fn spec_valid(self) -> bool {
        &&& -YAW_UNIT_MILLI <= self.cos_milli <= YAW_UNIT_MILLI
        &&& -YAW_UNIT_MILLI <= self.sin_milli <= YAW_UNIT_MILLI
    }

    /// The identity rotation.
    pub fn neutral() -> (r: YawMilli)
        ensures
            r == (YawMilli { cos_milli: 1000, sin_milli: 0 }),
            r.spec_valid(),
    {
        YawMilli { cos_milli: 1000, sin_milli: 0 }
    }
}

/// A client's movement request: a desired heading (not necessarily
/// normalized or bounded by the client) and the camera yaw it is
/// relative to.
#[derive(Clone, Copy, PartialEq, Eq, Structural, Debug)]
pub struct MovePlayer {
    pub direction: Vec3Milli,
    pub camera_yaw: YawMilli,
}

impl MovePlayer {
    /// Commands outside these bounds are malformed and dropped silently.
    pub open spec fn spec_valid(self) -> bool {
        &&& -DIRECTION_LIMIT_MILLI <= self.direction.x <= DIRECTION_LIMIT_MILLI
        &&& -DIRECTION_LIMIT_MILLI <= self.direction.y <= DIRECTION_LIMIT_MILLI
        &&& -DIRECTION_LIMIT_MILLI <= self.direction.z <= DIRECTION_LIMIT_MILLI
        &&& self.camera_yaw.spec_valid()
    }

    pub fn is_valid(&self) -> (r: bool)
        ensures
            r == self.spec_valid(),
    {
        -DIRECTION_LIMIT_MILLI <= self.direction.x && self.direction.x <= DIRECTION_LIMIT_MILLI
            && -DIRECTION_LIMIT_MILLI <= self.direction.y
            && self.direction.y <= DIRECTION_LIMIT_MILLI
            && -DIRECTION_LIMIT_MILLI <= self.direction.z
            && self.direction.z <= DIRECTION_LIMIT_MILLI
            && -YAW_UNIT_MILLI <= self.camera_yaw.cos_milli
            && self.camera_yaw.cos_milli <= YAW_UNIT_MILLI
            && -YAW_UNIT_MILLI <= self.camera_yaw.sin_milli
            && self.camera_yaw.sin_milli <= YAW_UNIT_MILLI
    }
}

/// A client's attack request; it carries no payload.
#[derive(Clone, Copy, PartialEq, Eq, Structural, Debug)]
pub struct PlayerAttack;

/// A direct damage request against a named client's player.
#[derive(Clone, Copy, PartialEq, Eq, Structural, Debug)]
pub struct DamagePlayer {
    pub client_id: u64,
    pub amount_milli: u32,
}

/// What a client asked for this tick.
#[derive(Clone, Copy, PartialEq, Eq, Structural, Debug)]
pub enum CommandKind {
    Move(MovePlayer),
    Attack(PlayerAttack),
}

/// A decoded client message, addressed by the sending connection.
#[derive(Clone, Copy, PartialEq, Eq, Structural, Debug)]
pub struct ClientCommand {
    pub client_id: u64,
    pub kind: CommandKind,
}

} // verus!
