//! The named axes of the tool's spaces.

use vstd::prelude::*;

verus! {

/// An axis: `U` and `V` span the texture, `X`, `Y` and `Z` the
/// 3-dimensional space.  `U` is not `X` and `V` is not `Y`, even where
/// they are treated alike; the conversions below map between them.
#[derive(Debug, Clone, Copy, PartialEq, Eq, Structural)]
pub enum Axis {
    /// The u axis of the texture.
    U,
    /// The v axis of the texture.
    V,
    /// The x axis of space.
    X,
    /// The y axis of space.
    Y,
    /// The z axis of space.
    Z,
}

impl Axis {
    /// Converts the axis into a spatial one: `U` becomes `X` and `V`
    /// becomes `Y`; a spatial axis stays itself.
    pub fn into_xyz(self) -> (r: Axis)
        ensures
            self == Axis::U ==> r == Axis::X,
            self == Axis::V ==> r == Axis::Y,
            self != Axis::U && self != Axis::V ==> r == self,
    {
        match self {
            Axis::U => Axis::X,
            Axis::V => Axis::Y,
            _ => self,
        }
    }

    /// Converts the axis into a texture one: `X` becomes `U` and `Y`
    /// becomes `V`; `Z` has no texture counterpart, and a texture axis
    /// stays itself.
    pub fn into_uv(self) -> (r: Option<Axis>)
        ensures
            self == Axis::X ==> r == Some(Axis::U),
            self == Axis::Y ==> r == Some(Axis::V),
            self == Axis::Z ==> r is None,
            self == Axis::U || self == Axis::V ==> r == Some(self),
    {
        match self {
            Axis::X => Some(Axis::U),
            Axis::Y => Some(Axis::V),
            Axis::Z => None,
            _ => Some(self),
        }
    }
}

} // verus!
