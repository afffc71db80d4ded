//! The input axes: what the player asks for, as a value in `[-ONE, ONE]`.

use vstd::prelude::*;
use crate::fixed::ONE;

verus! {

/// The axes that the game reads.
#[derive(Clone, Copy, Debug, Hash, PartialEq, Eq, Structural)]
pub enum Axis {
    Vertical,
}

impl Default for Axis {
    fn default() -> (axis: Axis)
        ensures
            axis == Axis::Vertical,
    {
        Axis::Vertical
    }
}

/// One axis and its current value.
#[derive(Clone, Copy, Debug, PartialEq, Eq, Structural)]
pub struct InputAxis {
    pub val: i64,
    pub axis_id: Axis,
}

/// The axes of the game: it has the vertical one only.
#[derive(Clone, Copy, Debug, PartialEq, Eq, Structural)]
pub struct InputAxes {
    pub vertical: InputAxis,
}

/// `v` limited to `[-ONE, ONE]`.
pub open spec fn clamp_axis(v: int) -> int {
    if v < -ONE {
        -ONE
    } else if v > ONE {
        ONE as int
    } else {
        v
    }
}

/// The value of an axis whose positive keys are held if `positive` and whose
/// negative keys are held if `negative`: the two cancel each other.
pub open spec fn axis_value(positive: bool, negative: bool) -> int {
    (if positive { ONE as int } else { 0 }) - (if negative { ONE as int } else { 0 })
}

impl InputAxis {
    /// The value is within `[-ONE, ONE]`.
    pub open spec fn wf(self) -> bool {
        -ONE <= self.val <= ONE
    }

    /// Sets the value of the axis, limited to `[-ONE, ONE]`.
    pub fn set_val(&mut self, v: i64)
        ensures
            final(self).val == clamp_axis(v as int),
            final(self).axis_id == old(self).axis_id,
            final(self).wf(),
    {
        self.val = if v < -ONE {
            -ONE
        } else if v > ONE {
            ONE
        } else {
            v
        };
    }
}

impl InputAxes {
    /// Every axis is within `[-ONE, ONE]`.
    pub open spec fn wf(self) -> bool {
        self.vertical.wf()
    }
}

/// The axes at the start: the vertical axis, at rest.
pub fn register_axes() -> (axes: InputAxes)
    ensures
        axes == (InputAxes { vertical: InputAxis { val: 0, axis_id: Axis::Vertical } }),
        axes.wf(),
{
    InputAxes { vertical: InputAxis { val: 0, axis_id: Axis::Vertical } }
}

/// Takes this tick's sample: whether any key of the positive direction is held,
/// and whether any of the negative direction is.
pub fn gather_input(positive: bool, negative: bool, input_axes: &mut InputAxes)
    ensures
        final(input_axes).vertical.val == axis_value(positive, negative),
        final(input_axes).vertical.axis_id == old(input_axes).vertical.axis_id,
        final(input_axes).wf(),
{
    let up: i64 = if positive { ONE } else { 0 };
    let down: i64 = if negative { ONE } else { 0 };
    input_axes.vertical.set_val(up - down);
}

} // verus!
