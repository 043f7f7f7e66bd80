//! The RISC-V page-table entry, one 64-bit word of bit fields.

use vstd::prelude::*;
use crate::addr::{PhysicalAddress, PHYS_LIMIT};

verus! {

pub const VALID_BIT: u64 = 0;
pub const READ_BIT: u64 = 1;
pub const WRITE_BIT: u64 = 2;
pub const EXEC_BIT: u64 = 3;
pub const USER_BIT: u64 = 4;
pub const GLOBAL_BIT: u64 = 5;

/// Bits 10 to 53: the physical page number.
pub const PPN_MASK: u64 = 0x003f_ffff_ffff_fc00;

/// Bit `n` of `v`.
pub open spec fn bit_of(v: u64, n: u64) -> bool {
    (v >> n) & 1 == 1
}

/// `v` with bit `n` set to `b`.
pub open spec fn with_bit(v: u64, n: u64, b: bool) -> u64 {
    if b {
        v | (1u64 << n)
    } else {
        v & !(1u64 << n)
    }
}

/// The physical page number held in bits 10 to 53.
pub open spec fn ppn_of(v: u64) -> u64 {
    (v >> 10u64) & 0xfff_ffff_ffff
}

/// `v` with bits 10 to 53 replaced by the low 44 bits of `ppn`.
pub open spec fn with_ppn(v: u64, ppn: u64) -> u64 {
    (v & !PPN_MASK) | ((ppn << 10u64) & PPN_MASK)
}

/// The physical address that the entry points to.
pub open spec fn phys_of(v: u64) -> int {
    ppn_of(v) * 4096
}

fn get_bit(v: u64, n: u64) -> (r: bool)
    requires
        n < 64,
    ensures
        r == bit_of(v, n),
{
    (v >> n) & 1 == 1
}

fn put_bit(v: u64, n: u64, b: bool) -> (r: u64)
    requires
        n < 64,
    ensures
        r == with_bit(v, n, b),
{
    if b {
        v | (1u64 << n)
    } else {
        v & !(1u64 << n)
    }
}

/// The physical page number has 44 bits, so the address it names is a
/// page-aligned address below the physical limit.
pub proof fn lemma_ppn_bound(v: u64)
    ensures
        ppn_of(v) < 0x1000_0000_0000,
        phys_of(v) < PHYS_LIMIT,
        phys_of(v) % 4096 == 0,
{
    assert((v >> 10u64) & 0xfff_ffff_ffff < 0x1000_0000_0000) by (bit_vector);
}

/// A page-table entry.
#[derive(Clone, Copy, Debug, PartialEq, Eq, Structural)]
pub struct PageTableEntry(pub u64);

impl PageTableEntry {
    pub fn valid(&self) -> (r: bool)
        ensures
            r == bit_of(self.0, VALID_BIT),
    {
        get_bit(self.0, VALID_BIT)
    }

    pub fn set_valid(&mut self, b: bool)
        ensures
            final(self).0 == with_bit(old(self).0, VALID_BIT, b),
    {
        self.0 = put_bit(self.0, VALID_BIT, b);
    }

    pub fn read(&self) -> (r: bool)
        ensures
            r == bit_of(self.0, READ_BIT),
    {
        get_bit(self.0, READ_BIT)
    }

    pub fn set_read(&mut self, b: bool)
        ensures
            final(self).0 == with_bit(old(self).0, READ_BIT, b),
    {
        self.0 = put_bit(self.0, READ_BIT, b);
    }

    pub fn write(&self) -> (r: bool)
        ensures
            r == bit_of(self.0, WRITE_BIT),
    {
        get_bit(self.0, WRITE_BIT)
    }

    pub fn set_write(&mut self, b: bool)
        ensures
            final(self).0 == with_bit(old(self).0, WRITE_BIT, b),
    {
        self.0 = put_bit(self.0, WRITE_BIT, b);
    }

    pub fn exec(&self) -> (r: bool)
        ensures
            r == bit_of(self.0, EXEC_BIT),
    {
        get_bit(self.0, EXEC_BIT)
    }

    pub fn set_exec(&mut self, b: bool)
        ensures
            final(self).0 == with_bit(old(self).0, EXEC_BIT, b),
    {
        self.0 = put_bit(self.0, EXEC_BIT, b);
    }

    pub fn user(&self) -> (r: bool)
        ensures
            r == bit_of(self.0, USER_BIT),
    {
        get_bit(self.0, USER_BIT)
    }

    pub fn set_user(&mut self, b: bool)
        ensures
            final(self).0 == with_bit(old(self).0, USER_BIT, b),
    {
        self.0 = put_bit(self.0, USER_BIT, b);
    }

    pub fn global(&self) -> (r: bool)
        ensures
            r == bit_of(self.0, GLOBAL_BIT),
    {
        get_bit(self.0, GLOBAL_BIT)
    }

    pub fn set_global(&mut self, b: bool)
        ensures
            final(self).0 == with_bit(old(self).0, GLOBAL_BIT, b),
    {
        self.0 = put_bit(self.0, GLOBAL_BIT, b);
    }

    pub fn ppn(&self) -> (r: u64)
        ensures
            r == ppn_of(self.0),
    {
        (self.0 >> 10u64) & 0xfff_ffff_ffff
    }

    pub fn set_ppn(&mut self, ppn: u64)
        ensures
            final(self).0 == with_ppn(old(self).0, ppn),
    {
        self.0 = (self.0 & !PPN_MASK) | ((ppn << 10u64) & PPN_MASK);
    }

    /// Points the entry at the page holding `val`.
    pub fn set_phys(&mut self, val: PhysicalAddress)
        ensures
            final(self).0 == with_ppn(old(self).0, val.0 >> 12u64),
    {
        self.set_ppn(val.addr() >> 12u64);
    }

    /// The physical address the entry points to.
    pub fn phys(&self) -> (r: PhysicalAddress)
        ensures
            r.0 == phys_of(self.0),
    {
        let p = self.ppn();
        proof {
            lemma_ppn_bound(self.0);
        }
        assert(p << 12u64 == p * 4096) by (bit_vector)
            requires p < 0x1000_0000_0000;
        PhysicalAddress::new(p << 12u64)
    }
}

/// Setting bit `n` of an entry to `b` sets that bit and leaves every other
/// bit, and so the physical page number when `n` lies below it, unchanged.
pub proof fn lemma_with_bit(v: u64, n: u64, b: bool)
    requires
        n < 10,
    ensures
        bit_of(with_bit(v, n, b), n) == b,
        forall|m: u64| m < 64 && m != n ==> #[trigger] bit_of(with_bit(v, n, b), m) == bit_of(v, m),
        ppn_of(with_bit(v, n, b)) == ppn_of(v),
{
    let w = with_bit(v, n, b);
    assert(((w >> n) & 1 == 1) == b) by (bit_vector)
        requires
            n < 10,
            w == (if b { v | (1u64 << n) } else { v & !(1u64 << n) });
    assert forall|m: u64| m < 64 && m != n implies #[trigger] bit_of(with_bit(v, n, b), m) == bit_of(v, m) by {
        assert(((w >> m) & 1 == 1) == ((v >> m) & 1 == 1)) by (bit_vector)
            requires
                n < 10,
                m < 64,
                m != n,
                w == (if b { v | (1u64 << n) } else { v & !(1u64 << n) });
    }
    assert((w >> 10u64) & 0xfff_ffff_ffff == (v >> 10u64) & 0xfff_ffff_ffff) by (bit_vector)
        requires
            n < 10,
            w == (if b { v | (1u64 << n) } else { v & !(1u64 << n) });
}

/// Replacing the physical page number stores its low 44 bits and leaves the
/// ten flag bits below it unchanged.
pub proof fn lemma_with_ppn(v: u64, ppn: u64)
    ensures
        ppn_of(with_ppn(v, ppn)) == ppn & 0xfff_ffff_ffff,
        forall|m: u64| m < 10 ==> #[trigger] bit_of(with_ppn(v, ppn), m) == bit_of(v, m),
{
    let w = with_ppn(v, ppn);
    assert((w >> 10u64) & 0xfff_ffff_ffff == ppn & 0xfff_ffff_ffff) by (bit_vector)
        requires
            w == (v & !0x003f_ffff_ffff_fc00u64) | ((ppn << 10u64) & 0x003f_ffff_ffff_fc00u64);
    assert forall|m: u64| m < 10 implies #[trigger] bit_of(with_ppn(v, ppn), m) == bit_of(v, m) by {
        assert(((w >> m) & 1 == 1) == ((v >> m) & 1 == 1)) by (bit_vector)
            requires
                m < 10,
                w == (v & !0x003f_ffff_ffff_fc00u64) | ((ppn << 10u64) & 0x003f_ffff_ffff_fc00u64);
    }
}

/// Pointing an entry at a page-aligned physical address below the limit and
/// reading it back gives that address; the flag bits stay as they were.
pub proof fn lemma_phys_roundtrip(v: u64, pa: u64)
    requires
        pa % 4096 == 0,
        pa < PHYS_LIMIT,
    ensures
        phys_of(with_ppn(v, pa >> 12u64)) == pa,
        forall|m: u64| m < 10 ==> #[trigger] bit_of(with_ppn(v, pa >> 12u64), m) == bit_of(v, m),
{
    lemma_with_ppn(v, pa >> 12u64);
    assert(((pa >> 12u64) & 0xfff_ffff_ffff) * 4096 == pa) by (bit_vector)
        requires
            pa % 4096 == 0,
            pa < 0x100_0000_0000_0000u64;
}

} // verus!
