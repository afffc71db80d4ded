//! Two-dimensional fixed-point vectors.

use vstd::prelude::*;
use crate::fixed::{mul_fixed, mul_spec};

verus! {

/// A point or a displacement in the plane, in fixed-point coordinates.
#[derive(Clone, Copy, Debug, PartialEq, Eq, Structural)]
pub struct Vec2 {
    pub x: i64,
    pub y: i64,
}

/// `v` limited in magnitude to `max`, with its sign kept: brought into
/// `[-max, max]`. A limit below zero allows no magnitude at all, as zero does.
pub open spec fn limit_scalar_spec(v: int, max: int) -> int {
    if max <= 0 {
        0
    } else if v > max {
        max
    } else if v < -max {
        -max
    } else {
        v
    }
}

/// Limits a scalar in magnitude, keeping its sign.
pub fn limit_scalar(v: i64, max: i64) -> (r: i64)
    ensures
        r == limit_scalar_spec(v as int, max as int),
{
    if max <= 0 {
        0
    } else if v > max {
        max
    } else if v < -max {
        -max
    } else {
        v
    }
}

impl Vec2 {
    /// The vector with both coordinates zero.
    pub open spec fn zero_spec() -> Vec2 {
        Vec2 { x: 0, y: 0 }
    }

    /// The vector with each coordinate limited in magnitude to that coordinate of `max`.
    pub open spec fn limit_spec(self, max: Vec2) -> Vec2 {
        Vec2 {
            x: limit_scalar_spec(self.x as int, max.x as int) as i64,
            y: limit_scalar_spec(self.y as int, max.y as int) as i64,
        }
    }

    /// The vector with each coordinate multiplied by the fixed-point `factor`.
    pub open spec fn scale_spec(self, factor: i64) -> Vec2 {
        Vec2 {
            x: mul_spec(self.x as int, factor as int) as i64,
            y: mul_spec(self.y as int, factor as int) as i64,
        }
    }

    pub fn new(x: i64, y: i64) -> (v: Vec2)
        ensures
            v == (Vec2 { x, y }),
    {
        Vec2 { x, y }
    }

    pub fn zero() -> (v: Vec2)
        ensures
            v == Vec2::zero_spec(),
    {
        Vec2 { x: 0, y: 0 }
    }

    /// Limits each coordinate in magnitude to that coordinate of `max`, keeping its sign.
    pub fn limit(self, max: Vec2) -> (v: Vec2)
        ensures
            v == self.limit_spec(max),
    {
        Vec2 { x: limit_scalar(self.x, max.x), y: limit_scalar(self.y, max.y) }
    }

    /// Multiplies both coordinates by the fixed-point `factor`.
    pub fn scale(self, factor: i64) -> (v: Vec2)
        ensures
            v == self.scale_spec(factor),
    {
        Vec2 { x: mul_fixed(self.x, factor), y: mul_fixed(self.y, factor) }
    }
}

} // verus!
