//! The orientation of an output's picture.

use vstd::prelude::*;

verus! {

/// The four orientations that an output can be set to.
#[derive(Clone, Copy, Debug, PartialEq, Eq, Structural)]
pub enum Rotation {
    Normal,
    Left,
    Inverted,
    Right,
}

impl Rotation {
    /// The orientation that the windowing protocol's raw value `raw` stands
    /// for. A value that names no single orientation counts as `Normal`:
    /// the layout is then applied upright rather than refused.
    pub open spec fn of_raw(raw: u16) -> Rotation {
        if raw == 2 {
            Rotation::Left
        } else if raw == 4 {
            Rotation::Inverted
        } else if raw == 8 {
            Rotation::Right
        } else {
            Rotation::Normal
        }
    }

    /// The raw value that the windowing protocol uses for this orientation.
    pub open spec fn raw_of(self) -> u16 {
        match self {
            Rotation::Normal => 1,
            Rotation::Left => 2,
            Rotation::Inverted => 4,
            Rotation::Right => 8,
        }
    }

    /// The word by which the display-configuration tool knows this orientation.
    pub open spec fn word(self) -> Seq<char> {
        match self {
            Rotation::Normal => "normal"@,
            Rotation::Left => "left"@,
            Rotation::Inverted => "inverted"@,
            Rotation::Right => "right"@,
        }
    }

    /// Decodes the windowing protocol's raw value.
    pub fn from_raw(raw: u16) -> (r: Rotation)
        ensures
            r == Rotation::of_raw(raw),
            raw == 0 || raw == 1 ==> r == Rotation::Normal,
            raw == 2 ==> r == Rotation::Left,
            raw == 4 ==> r == Rotation::Inverted,
            raw == 8 ==> r == Rotation::Right,
            raw != 2 && raw != 4 && raw != 8 ==> r == Rotation::Normal,
    {
        if raw == 2 {
            Rotation::Left
        } else if raw == 4 {
            Rotation::Inverted
        } else if raw == 8 {
            Rotation::Right
        } else {
            Rotation::Normal
        }
    }

    /// Encodes the orientation as the windowing protocol's raw value.
    pub fn raw(self) -> (r: u16)
        ensures
            r == self.raw_of(),
            Rotation::of_raw(r) == self,
    {
        match self {
            Rotation::Normal => 1,
            Rotation::Left => 2,
            Rotation::Inverted => 4,
            Rotation::Right => 8,
        }
    }

    /// The word by which the display-configuration tool knows this orientation.
    pub fn as_str(self) -> (r: &'static str)
        ensures
            r@ == self.word(),
    {
        match self {
            Rotation::Normal => "normal",
            Rotation::Left => "left",
            Rotation::Inverted => "inverted",
            Rotation::Right => "right",
        }
    }
}

} // verus!
