//! Memory-mapped register access on RISC-V.

use vstd::prelude::*;

verus! {

/// A channel to memory-mapped registers starting at `location`.
pub struct IOTransit {
    location: usize,
}

impl View for IOTransit {
    type V = usize;

    closed spec fn view(&self) -> usize {
        self.location
    }
}

impl IOTransit {
    pub fn new(location: usize) -> (r: Self)
        ensures
            r@ == location,
    {
        Self { location }
    }

    pub fn loc(&self) -> (r: usize)
        ensures
            r == self@,
    {
        self.location
    }

    /// The address that an access at `offset` reaches.
    pub fn address(&self, offset: usize) -> (r: usize)
        requires
            self@ + offset <= usize::MAX,
        ensures
            r == self@ + offset,
    {
        self.location + offset
    }
}

} // verus!
