use vstd::prelude::*;

verus! {

/// A coordinate axis of scene space.
#[derive(Clone, Copy, Debug, PartialEq, Eq, Structural)]
pub enum Axis {
    X,
    Y,
    Z,
}

impl Axis {
    /// The coordinate index (x = 0, y = 1, z = 2) of this axis.
    pub open spec fn index(self) -> nat {
        match self {
            Axis::X => 0,
            Axis::Y => 1,
            Axis::Z => 2,
        }
    }

    /// The rotation frame `(r, a, b)` for a rotation about this axis: `r` is the
    /// axis itself and `(a, b)` the plane it turns, in right-handed order.
    pub fn get_axis(&self) -> (r: (usize, usize, usize))
        ensures
            r.0 == self.index(),
            r.1 == (self.index() + 1) % 3,
            r.2 == (self.index() + 2) % 3,
    {
        match self {
            Axis::X => (0, 1, 2),
            Axis::Y => (1, 2, 0),
            Axis::Z => (2, 0, 1),
        }
    }
}

/// The orientation of an axis-aligned rectangle, named by the two axes it spans.
#[derive(Clone, Copy, Debug, PartialEq, Eq, Structural)]
pub enum PlaneType {
    YZ,
    ZX,
    XY,
}

impl PlaneType {
    /// The index of the axis on which the rectangle is constant (x = 0, y = 1, z = 2).
    pub open spec fn constant_axis(self) -> nat {
        match self {
            PlaneType::YZ => 0,
            PlaneType::ZX => 1,
            PlaneType::XY => 2,
        }
    }

    /// The frame `(k, a, b)` of the rectangle: `k` is the constant axis and
    /// `(a, b)` the axes it spans, in right-handed order.
    pub fn get_axis(&self) -> (r: (usize, usize, usize))
        ensures
            r.0 == self.constant_axis(),
            r.1 == (self.constant_axis() + 1) % 3,
            r.2 == (self.constant_axis() + 2) % 3,
    {
        match self {
            PlaneType::YZ => (0, 1, 2),
            PlaneType::ZX => (1, 2, 0),
            PlaneType::XY => (2, 0, 1),
        }
    }
}

} // verus!
