//! Coordinate axes used to index points and bounding boxes.
use vstd::prelude::*;

verus! {

/// One of the three coordinate axes.
#[derive(Debug, Clone, Copy, PartialEq, Eq, Structural)]
pub enum Axis {
    X,
    Y,
    Z,
}

impl Axis {
    /// The three axes in the order X, Y, Z.
    pub fn all() -> (r: [Axis; 3])
        ensures
            r@ == seq![Axis::X, Axis::Y, Axis::Z],
    {
        let r = [Axis::X, Axis::Y, Axis::Z];
        assert(r@ =~= seq![Axis::X, Axis::Y, Axis::Z]);
        r
    }
}

} // verus!
