use vstd::prelude::*;

verus! {

/// A budget that counts down; used to bound how much work an operation may do.
pub struct Gas {
    remaining: isize,
}

impl Gas {
    /// The number of units left.
    pub closed spec fn left(&self) -> int {
        self.remaining as int
    }

    /// A budget of `x` units.
    pub fn new(x: isize) -> (g: Gas)
        ensures
            g.left() == x,
    {
        Gas { remaining: x }
    }

    /// Spends one unit; answers whether the budget is now used up.
    pub fn stop(&mut self) -> (exhausted: bool)
        requires
            old(self).left() > isize::MIN,
        ensures
            final(self).left() == old(self).left() - 1,
            exhausted == (final(self).left() <= 0),
    {
        self.remaining = self.remaining - 1;
        self.remaining <= 0
    }
}

} // verus!
