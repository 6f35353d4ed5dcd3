//! Per-unit input snapshots and the dead-zone rule.
//!
//! A snapshot is what the core consumes each tick for one unit: two stick
//! axes for movement, two for aim, a dash edge and a fire-held flag. Axis
//! values are fixed-point milli-units in [-`AXIS_MAX`, `AXIS_MAX`]; the dead
//! zone is applied here, per axis, not by the device layer.

use vstd::prelude::*;

verus! {

/// Full deflection of one axis, in milli-units.
pub const AXIS_MAX: i64 = 1000;

/// Axis readings with magnitude at most this are treated as zero.
pub const DEADZONE: i64 = 100;

/// One unit's input for one tick.
#[derive(Clone, Copy, Debug, PartialEq, Eq, Structural)]
pub struct InputSnapshot {
    /// Movement stick, x axis.
    pub move_x: i64,
    /// Movement stick, y axis.
    pub move_y: i64,
    /// Aim stick, x axis.
    pub aim_x: i64,
    /// Aim stick, y axis.
    pub aim_y: i64,
    /// True only on the tick the dash button goes down (rising edge).
    pub dash_pressed: bool,
    /// True while the fire button is held.
    pub fire_held: bool,
}

/// The mathematical value of a snapshot.
pub ghost struct InputV {
    pub move_x: int,
    pub move_y: int,
    pub aim_x: int,
    pub aim_y: int,
    pub dash_pressed: bool,
    pub fire_held: bool,
}

impl View for InputSnapshot {
    type V = InputV;

    open spec fn view(&self) -> InputV {
        InputV {
            move_x: self.move_x as int,
            move_y: self.move_y as int,
            aim_x: self.aim_x as int,
            aim_y: self.aim_y as int,
            dash_pressed: self.dash_pressed,
            fire_held: self.fire_held,
        }
    }
}

/// A snapshot is well-formed when every axis is within full deflection.
pub open spec fn input_wf(i: InputV) -> bool {
    &&& -(AXIS_MAX as int) <= i.move_x <= AXIS_MAX as int
    &&& -(AXIS_MAX as int) <= i.move_y <= AXIS_MAX as int
    &&& -(AXIS_MAX as int) <= i.aim_x <= AXIS_MAX as int
    &&& -(AXIS_MAX as int) <= i.aim_y <= AXIS_MAX as int
}

/// A unit with no mapped device has no snapshot for the tick.
pub open spec fn opt_input_view(i: Option<InputSnapshot>) -> Option<InputV> {
    match i {
        Some(s) => Some(s@),
        None => None,
    }
}

/// The mathematical values of a whole tick's inputs, one entry per unit.
pub open spec fn vinputs(s: Seq<Option<InputSnapshot>>) -> Seq<Option<InputV>> {
    s.map_values(|o: Option<InputSnapshot>| opt_input_view(o))
}

/// Well-formedness of an optional snapshot.
pub open spec fn opt_input_wf(i: Option<InputV>) -> bool {
    match i {
        Some(s) => input_wf(s),
        None => true,
    }
}

/// The dead-zone rule: a reading inside the dead zone is snapped to zero,
/// any other reading passes through unchanged.
pub open spec fn snap(a: int) -> int {
    if -(DEADZONE as int) <= a <= DEADZONE as int {
        0
    } else {
        a
    }
}

/// Apply the dead zone to one axis reading.
pub fn snap_axis(a: i64) -> (r: i64)
    requires
        -AXIS_MAX <= a <= AXIS_MAX,
    ensures
        r == snap(a as int),
{
    if -DEADZONE <= a && a <= DEADZONE {
        0
    } else {
        a
    }
}

} // verus!
