//! Device access by I/O port or by memory-mapped register.

use vstd::prelude::*;

verus! {

/// Where a device's registers are: at an I/O port or at a memory address.
#[derive(Clone, Copy, Debug, PartialEq, Eq, Structural)]
pub enum IOType {
    Port(usize),
    Mem(usize),
}

impl IOType {
    pub open spec fn spec_loc(self) -> usize {
        match self {
            IOType::Port(l) => l,
            IOType::Mem(l) => l,
        }
    }

    /// The port number or address.
    pub fn loc(&self) -> (r: usize)
        ensures
            r == self.spec_loc(),
    {
        match self {
            IOType::Port(location) => *location,
            IOType::Mem(location) => *location,
        }
    }

    /// The register `offset` past this one, of the same kind.
    pub fn offset(&self, offset: usize) -> (r: IOType)
        requires
            self.spec_loc() + offset <= usize::MAX,
        ensures
            r.spec_loc() == self.spec_loc() + offset,
            r is Port <==> self is Port,
    {
        match self {
            IOType::Port(location) => IOType::Port(*location + offset),
            IOType::Mem(location) => IOType::Mem(*location + offset),
        }
    }
}

/// A channel to a device's registers.
pub struct IOTransit {
    location: IOType,
}

impl View for IOTransit {
    type V = IOType;

    closed spec fn view(&self) -> IOType {
        self.location
    }
}

impl IOTransit {
    pub fn new(location: IOType) -> (r: Self)
        ensures
            r@ == location,
    {
        Self { location }
    }

    pub fn iotype(&self) -> (r: IOType)
        ensures
            r == self@,
    {
        self.location
    }

    /// Moves the channel to `loc`, keeping its kind.
    pub fn set_loc(&mut self, loc: usize)
        ensures
            final(self)@.spec_loc() == loc,
            final(self)@ is Port <==> old(self)@ is Port,
    {
        match self.location {
            IOType::Mem(_) => self.location = IOType::Mem(loc),
            IOType::Port(_) => self.location = IOType::Port(loc),
        }
    }

    /// The register that an access at `offset` reaches.
    pub fn target(&self, offset: usize) -> (r: IOType)
        requires
            self@.spec_loc() + offset <= usize::MAX,
        ensures
            r.spec_loc() == self@.spec_loc() + offset,
            r is Port <==> self@ is Port,
    {
        self.location.offset(offset)
    }
}

} // verus!
