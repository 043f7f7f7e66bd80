//! Physical and virtual addresses, and the higher-half direct map.

use vstd::prelude::*;

verus! {

/// One past the largest physical address RISC-V can name (56 bits).
pub const PHYS_LIMIT: u64 = 0x100_0000_0000_0000;

/// Index into the page table of `level` that the address `va` selects.
pub open spec fn vpn_of(va: u64, level: nat) -> int {
    ((va >> ((12 + 9 * level) as u64)) & 0x1ff) as int
}

/// A physical address.
#[derive(Clone, Copy, Debug, PartialEq, Eq, Structural)]
pub struct PhysicalAddress(pub u64);

impl PhysicalAddress {
    pub fn new(addr: u64) -> (r: Self)
        ensures
            r.0 == addr,
    {
        PhysicalAddress(addr)
    }

    pub fn addr(&self) -> (r: u64)
        ensures
            r == self.0,
    {
        self.0
    }

    /// The alias of this physical address in the higher-half direct map.
    pub fn to_virt(&self, hhdm: u64) -> (r: VirtualAddress)
        requires
            self.0 + hhdm <= u64::MAX,
        ensures
            r.0 == self.0 + hhdm,
    {
        VirtualAddress(self.0 + hhdm)
    }
}

/// A virtual address.
#[derive(Clone, Copy, Debug, PartialEq, Eq, Structural)]
pub struct VirtualAddress(pub u64);

impl VirtualAddress {
    pub fn new(addr: u64) -> (r: Self)
        ensures
            r.0 == addr,
    {
        VirtualAddress(addr)
    }

    pub fn addr(&self) -> (r: u64)
        ensures
            r == self.0,
    {
        self.0
    }

    /// The nine-bit page-table index that this address selects at `level`.
    pub fn vpn(&self, level: usize) -> (r: usize)
        requires
            level <= 5,
        ensures
            r == vpn_of(self.0, level as nat),
            r < 512,
    {
        let shift: u64 = 12 + 9 * (level as u64);
        let a = self.0;
        let r = (a >> shift) & 0x1ff;
        assert(r < 512) by (bit_vector)
            requires r == (a >> shift) & 0x1ff;
        r as usize
    }
}

} // verus!
