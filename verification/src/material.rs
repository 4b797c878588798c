use crate::approx::Approx;
use vstd::prelude::*;

verus! {

/// What a jittering pattern disturbs: the colour it finds, or the point it looks at.
#[derive(Debug, Clone, Copy, PartialEq, Eq, Structural)]
pub enum JitterKind {
    Color,
    Point,
}

impl Approx<JitterKind> for JitterKind {
    open spec fn close(&self, other: &JitterKind) -> bool {
        *self == *other
    }

    fn approx(&self, other: &JitterKind) -> (r: bool) {
        match (self, other) {
            (JitterKind::Color, JitterKind::Color) => true,
            (JitterKind::Point, JitterKind::Point) => true,
            (_, _) => false,
        }
    }
}

/// How a pattern mixes its two inner patterns.
#[derive(Debug, Clone, Copy, PartialEq, Eq, Structural)]
pub enum MixtureKind {
    Blend,
    Checkers,
    RingGradient,
    Ring,
    Gradient,
    Stripes,
}

impl Approx<MixtureKind> for MixtureKind {
    open spec fn close(&self, other: &MixtureKind) -> bool {
        *self == *other
    }

    fn approx(&self, other: &MixtureKind) -> (r: bool) {
        match (self, other) {
            (MixtureKind::Blend, MixtureKind::Blend) => true,
            (MixtureKind::Checkers, MixtureKind::Checkers) => true,
            (MixtureKind::RingGradient, MixtureKind::RingGradient) => true,
            (MixtureKind::Ring, MixtureKind::Ring) => true,
            (MixtureKind::Gradient, MixtureKind::Gradient) => true,
            (MixtureKind::Stripes, MixtureKind::Stripes) => true,
            (_, _) => false,
        }
    }
}

/// One of the two inner patterns of a mixture.
#[derive(Debug, Clone, Copy, PartialEq, Eq, Structural)]
pub enum Side {
    Left,
    Right,
}

impl MixtureKind {
    /// Whether the kind shows one inner pattern or the other from cell to
    /// cell, rather than a blend of both.
    pub open spec fn takes_sides(&self) -> bool {
        *self == MixtureKind::Checkers || *self == MixtureKind::Ring || *self
            == MixtureKind::Stripes
    }

    pub fn alternates(&self) -> (r: bool)
        ensures
            r == self.takes_sides(),
    {
        match self {
            MixtureKind::Checkers => true,
            MixtureKind::Ring => true,
            MixtureKind::Stripes => true,
            _ => false,
        }
    }
}

/// The pattern that shows in a cell: the left one in the cells with an even number.
pub fn side_of(cell: i32) -> (side: Side)
    ensures
        side == if cell as int % 2 == 0 {
            Side::Left
        } else {
            Side::Right
        },
{
    if cell % 2 == 0 {
        Side::Left
    } else {
        Side::Right
    }
}

/// The pattern that shows in the cell `(x, y, z)` of a checkerboard: the
/// left one where the sum of the three is even.
pub fn checkers_side(x: i32, y: i32, z: i32) -> (side: Side)
    requires
        i32::MIN <= x + y <= i32::MAX,
        i32::MIN <= x + y + z <= i32::MAX,
    ensures
        side == if (x + y + z) % 2 == 0 {
            Side::Left
        } else {
            Side::Right
        },
{
    side_of(x + y + z)
}

} // verus!
