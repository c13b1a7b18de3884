//! Publication state of a region's prices.

use vstd::prelude::*;

verus! {

/// Whether a region's prices are settled or may still change.
#[derive(Clone, Copy, Debug, PartialEq, Eq, Structural)]
pub enum State {
    Final,
    Preliminary,
}

impl State {
    /// Whether the prices are settled.
    pub fn is_final(&self) -> (r: bool)
        ensures
            r == (*self == State::Final),
    {
        matches!(self, State::Final)
    }

    /// Whether the prices may still change.
    pub fn is_preliminary(&self) -> (r: bool)
        ensures
            r == (*self == State::Preliminary),
    {
        matches!(self, State::Preliminary)
    }
}

} // verus!
