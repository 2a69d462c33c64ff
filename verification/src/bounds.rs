use vstd::prelude::*;

verus! {

/// Largest magnitude of a window edge: half the coordinate range.
pub const WINDOW_LIMIT: i64 = 500_000_000;

/// The window as its four edges, in fixed point.
#[derive(Clone, Copy, Debug, PartialEq, Eq, Structural)]
pub struct Bounds {
    pub left: i64,
    pub right: i64,
    pub bottom: i64,
    pub top: i64,
}

impl Bounds {
    /// The edges lie in order and within the window limit.
    pub open spec fn wf(self) -> bool {
        &&& -WINDOW_LIMIT <= self.left <= self.right <= WINDOW_LIMIT
        &&& -WINDOW_LIMIT <= self.bottom <= self.top <= WINDOW_LIMIT
    }

    /// The point `(x, y)` lies in the window, edges included.
    pub open spec fn holds(self, x: int, y: int) -> bool {
        self.left <= x <= self.right && self.bottom <= y <= self.top
    }

    /// Whether the edges lie in order and within the window limit.
    pub fn is_wf(&self) -> (r: bool)
        ensures
            r == self.wf(),
    {
        -WINDOW_LIMIT <= self.left && self.left <= self.right && self.right <= WINDOW_LIMIT
            && -WINDOW_LIMIT <= self.bottom && self.bottom <= self.top && self.top
            <= WINDOW_LIMIT
    }

    /// The window with the given edges.
    pub fn new(left: i64, right: i64, bottom: i64, top: i64) -> (r: Bounds)
        ensures
            r == (Bounds { left, right, bottom, top }),
    {
        Bounds { left, right, bottom, top }
    }

    /// The edges in the order left, right, bottom, top.
    pub fn l_r_b_t(&self) -> (r: (i64, i64, i64, i64))
        ensures
            r == (self.left, self.right, self.bottom, self.top),
    {
        (self.left, self.right, self.bottom, self.top)
    }
}

} // verus!
