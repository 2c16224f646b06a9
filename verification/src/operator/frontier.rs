//! The input frontier as the operator sees it.

use vstd::prelude::*;

verus! {

/// A lower bound on the timestamps that may still arrive. With the bound at
/// `t`, every timestamp from `t` on may still see input; once the input is
/// closed, none may.
#[derive(Clone, Copy, Debug, PartialEq, Eq)]
pub struct Frontier {
    lower: Option<u64>,
}

impl Frontier {
    /// The bound, or `None` once the input is closed.
    pub closed spec fn lower(&self) -> Option<u64> {
        self.lower
    }

    /// Whether input at `time` may still arrive.
    pub open spec fn permits(&self, time: u64) -> bool {
        match self.lower() {
            Some(lower) => lower <= time,
            None => false,
        }
    }

    /// The frontier whose bound is `lower`.
    pub fn at(lower: u64) -> (frontier: Self)
        ensures
            frontier.lower() == Some(lower),
    {
        Frontier { lower: Some(lower) }
    }

    /// The frontier of an input that is closed.
    pub fn closed() -> (frontier: Self)
        ensures
            frontier.lower() is None,
    {
        Frontier { lower: None }
    }

    /// Whether input at `time` may still arrive.
    pub fn less_equal(&self, time: u64) -> (possible: bool)
        ensures
            possible == self.permits(time),
    {
        match self.lower {
            Some(lower) => lower <= time,
            None => false,
        }
    }
}

/// What a frontier permits it permits of every later timestamp too.
pub proof fn lemma_permits_is_upward_closed(frontier: Frontier, earlier: u64, later: u64)
    requires
        frontier.permits(earlier),
        earlier <= later,
    ensures
        frontier.permits(later),
{
}

} // verus!
