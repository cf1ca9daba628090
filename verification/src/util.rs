//! Small arithmetic helpers shared by the rasterizer.

use vstd::prelude::*;

verus! {

/// The squared Euclidean distance between two integer points.
pub fn distance_squared(x1: isize, y1: isize, x2: isize, y2: isize) -> (d: isize)
    requires
        isize::MIN <= x2 - x1 <= isize::MAX,
        isize::MIN <= y2 - y1 <= isize::MAX,
        (x2 - x1) * (x2 - x1) <= isize::MAX,
        (y2 - y1) * (y2 - y1) <= isize::MAX,
        (x2 - x1) * (x2 - x1) + (y2 - y1) * (y2 - y1) <= isize::MAX,
    ensures
        d == (x2 - x1) * (x2 - x1) + (y2 - y1) * (y2 - y1),
{
    let dx = x2 - x1;
    let dy = y2 - y1;
    proof {
        assert(dx * dx >= 0) by (nonlinear_arith);
        assert(dy * dy >= 0) by (nonlinear_arith);
    }
    dx * dx + dy * dy
}

} // verus!
