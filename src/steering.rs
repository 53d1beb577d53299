//! Turning a ship toward its target: clamped torque and constant forward thrust.
use vstd::prelude::*;

use crate::geometry::Point;
use crate::targeting::Ship;

verus! {

/// Position units per pixel.
pub const POSITION_SCALE: i64 = 1000;

/// Length of a unit heading vector: headings are given in millionths.
pub const HEADING_SCALE: i32 = 1_000_000;

/// Angle units per radian: angles are given in microradians.
pub const ANGLE_SCALE: i64 = 1_000_000;

/// Torque units per unit of engine torque: torques are given in billionths.
pub const TORQUE_SCALE: i64 = 1_000_000_000;

/// Tunable steering parameters.
///
/// `rotation_force` is torque per angle unit, `rotation_max` a torque and
/// `aim_distance` a distance in position units; `propulsion_force` multiplies a
/// heading, so a force is `propulsion_force` engine units per `HEADING_SCALE`.
#[derive(Clone, Copy, Debug, PartialEq, Eq, Structural)]
pub struct Configuration {
    pub rotation_force: i64,
    pub propulsion_force: i32,
    /// Reserved: no force depends on it.
    pub aim_distance: i64,
    pub rotation_max: i64,
}

impl Default for Configuration {
    /// A gain of 0.02 per radian, a thrust of 50, an aim distance of 100 pixels
    /// and a torque bound of 0.05.
    fn default() -> (c: Configuration)
        ensures
            c.rotation_force == 20,
            c.propulsion_force == 50,
            c.aim_distance == 100 * POSITION_SCALE,
            c.rotation_max == 50_000_000,
    {
        Configuration {
            rotation_force: 20,
            propulsion_force: 50,
            aim_distance: 100 * POSITION_SCALE,
            rotation_max: 50_000_000,
        }
    }
}

/// A force on the plane.
#[derive(Clone, Copy, Debug, PartialEq, Eq, Structural)]
pub struct Force {
    pub x: i64,
    pub y: i64,
}

/// What a ship's physics body is told for one tick.
#[derive(Clone, Copy, Debug, PartialEq, Eq, Structural)]
pub struct ForceCommand {
    pub torque: i64,
    pub force: Force,
}

/// `v` held within `[lo, hi]`.
pub open spec fn clamp(v: int, lo: int, hi: int) -> int {
    if v < lo {
        lo
    } else if v > hi {
        hi
    } else {
        v
    }
}

/// The torque for a signed angle from heading to target (positive: counterclockwise).
pub open spec fn torque_for(angle: int, config: Configuration) -> int {
    clamp(angle * config.rotation_force, -config.rotation_max, config.rotation_max as int)
}

/// The torque that turns a ship by `angle` toward its target: the angle times the
/// rotation gain, held within `rotation_max` either way.
pub fn steering_torque(angle: i64, config: &Configuration) -> (t: i64)
    requires
        config.rotation_max >= 0,
    ensures
        t == torque_for(angle as int, *config),
        -config.rotation_max <= t <= config.rotation_max,
{
    assert(-0x8000_0000_0000_0000 * 0x8000_0000_0000_0000 <= angle * config.rotation_force
        <= 0x8000_0000_0000_0000 * 0x8000_0000_0000_0000) by (nonlinear_arith)
        requires
            -0x8000_0000_0000_0000 <= angle < 0x8000_0000_0000_0000,
            -0x8000_0000_0000_0000 <= config.rotation_force < 0x8000_0000_0000_0000,
    ;
    let raw: i128 = angle as i128 * config.rotation_force as i128;
    if raw < -(config.rotation_max as i128) {
        -config.rotation_max
    } else if raw > config.rotation_max as i128 {
        config.rotation_max
    } else {
        raw as i64
    }
}

/// Forward thrust: the heading scaled by `propulsion_force`, whatever the target.
pub fn propulsion(heading: Point, config: &Configuration) -> (f: Force)
    ensures
        f.x == heading.x * config.propulsion_force,
        f.y == heading.y * config.propulsion_force,
{
    assert(-0x8000_0000 * 0x8000_0000 <= heading.x * config.propulsion_force <= 0x8000_0000 * 0x8000_0000) by (nonlinear_arith)
        requires
            -0x8000_0000 <= heading.x < 0x8000_0000,
            -0x8000_0000 <= config.propulsion_force < 0x8000_0000,
    ;
    assert(-0x8000_0000 * 0x8000_0000 <= heading.y * config.propulsion_force <= 0x8000_0000 * 0x8000_0000) by (nonlinear_arith)
        requires
            -0x8000_0000 <= heading.y < 0x8000_0000,
            -0x8000_0000 <= config.propulsion_force < 0x8000_0000,
    ;
    let x: i64 = heading.x as i64 * config.propulsion_force as i64;
    let y: i64 = heading.y as i64 * config.propulsion_force as i64;
    Force { x, y }
}

/// The command for a ship with the given heading, turned by `angle` from its target:
/// torque toward the target and full thrust along the heading.
pub fn apply_forces(heading: Point, angle: i64, config: &Configuration) -> (c: ForceCommand)
    requires
        config.rotation_max >= 0,
    ensures
        c.torque == torque_for(angle as int, *config),
        -config.rotation_max <= c.torque <= config.rotation_max,
        c.force.x == heading.x * config.propulsion_force,
        c.force.y == heading.y * config.propulsion_force,
{
    ForceCommand { torque: steering_torque(angle, config), force: propulsion(heading, config) }
}

/// The vector from a ship to its target.
pub fn target_direction(ship: &Ship) -> (d: (i64, i64))
    ensures
        d.0 == ship.target.translation.x - ship.position.x,
        d.1 == ship.target.translation.y - ship.position.y,
{
    (
        ship.target.translation.x as i64 - ship.position.x as i64,
        ship.target.translation.y as i64 - ship.position.y as i64,
    )
}

} // verus!
