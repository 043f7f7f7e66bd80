//! The `satp` control register: root page table and translation mode.

use vstd::prelude::*;
use crate::addr::{PhysicalAddress, PHYS_LIMIT};
use crate::paging::{Mode, RootTable};

verus! {

/// Bits 0 to 43: physical page number of the root table.
pub open spec fn satp_ppn(v: u64) -> u64 {
    v & 0xfff_ffff_ffff
}

/// Bits 44 to 59: address-space identifier.
pub open spec fn satp_asid(v: u64) -> u64 {
    (v >> 44u64) & 0xffff
}

/// Bits 60 to 63: translation mode.
pub open spec fn satp_mode_raw(v: u64) -> u64 {
    v >> 60u64
}

/// The mode that a MODE field selects, if the kernel knows it.
pub open spec fn mode_of_raw(raw: u64) -> Option<Mode> {
    if raw == 0 {
        Some(Mode::Bare)
    } else if raw == 8 {
        Some(Mode::Sv39)
    } else if raw == 9 {
        Some(Mode::Sv48)
    } else if raw == 10 {
        Some(Mode::Sv57)
    } else if raw == 11 {
        Some(Mode::Sv64)
    } else {
        None
    }
}

/// The value of the `satp` register.
#[derive(Clone, Copy, Debug, PartialEq, Eq, Structural)]
pub struct Satp(pub u64);

impl Satp {
    pub fn ppn(&self) -> (r: u64)
        ensures
            r == satp_ppn(self.0),
    {
        self.0 & 0xfff_ffff_ffff
    }

    pub fn asid(&self) -> (r: u64)
        ensures
            r == satp_asid(self.0),
    {
        (self.0 >> 44u64) & 0xffff
    }

    pub fn mode_raw(&self) -> (r: u64)
        ensures
            r == satp_mode_raw(self.0),
    {
        self.0 >> 60u64
    }

    /// Physical address of the root page table.
    pub fn phys(&self) -> (r: PhysicalAddress)
        ensures
            r.0 == satp_ppn(self.0) * 4096,
            r.0 < PHYS_LIMIT,
    {
        let v = self.0;
        let p = self.ppn();
        assert(p << 12u64 == p * 4096 && p * 4096 < 0x100_0000_0000_0000) by (bit_vector)
            requires p == v & 0xfff_ffff_ffff;
        PhysicalAddress::new(p << 12u64)
    }

    /// The translation mode that the register selects.
    pub fn mode(&self) -> (r: Mode)
        requires
            mode_of_raw(satp_mode_raw(self.0)) is Some,
        ensures
            Some(r) == mode_of_raw(satp_mode_raw(self.0)),
    {
        match self.mode_raw() {
            0 => Mode::Bare,
            8 => Mode::Sv39,
            9 => Mode::Sv48,
            10 => Mode::Sv57,
            _ => Mode::Sv64,
        }
    }
}

/// Decoding the MODE field undoes `Mode::raw`.
pub proof fn lemma_mode_raw_roundtrip(m: Mode)
    ensures
        mode_of_raw(m.spec_raw()) == Some(m),
{
}

/// The fields of `satp`, as RISC-V lays them out: the physical page number
/// of the root table in bits 0 to 43, the address-space identifier in bits
/// 44 to 59, the mode in bits 60 to 63.
pub proof fn lemma_satp_fields(v: u64)
    ensures
        satp_ppn(v) == v % 0x1000_0000_0000,
        satp_asid(v) == (v / 0x1000_0000_0000) % 0x1_0000,
        satp_mode_raw(v) == v / 0x1000_0000_0000_0000,
{
    assert(v & 0xfff_ffff_ffff == v % 0x1000_0000_0000) by (bit_vector);
    assert((v >> 44u64) & 0xffff == (v / 0x1000_0000_0000) % 0x1_0000) by (bit_vector);
    assert(v >> 60u64 == v / 0x1000_0000_0000_0000) by (bit_vector);
}

/// Putting a mode, an address-space identifier and a root page number
/// together and reading them back gives each one unchanged.
pub proof fn lemma_satp_compose(mode: u64, asid: u64, ppn: u64)
    requires
        mode < 16,
        asid < 0x1_0000,
        ppn < 0x1000_0000_0000,
    ensures
        satp_ppn((mode << 60u64) | (asid << 44u64) | ppn) == ppn,
        satp_asid((mode << 60u64) | (asid << 44u64) | ppn) == asid,
        satp_mode_raw((mode << 60u64) | (asid << 44u64) | ppn) == mode,
{
    let v = (mode << 60u64) | (asid << 44u64) | ppn;
    assert(v & 0xfff_ffff_ffff == ppn && (v >> 44u64) & 0xffff == asid && v >> 60u64 == mode) by (bit_vector)
        requires
            mode < 16,
            asid < 0x1_0000,
            ppn < 0x1000_0000_0000,
            v == (mode << 60u64) | (asid << 44u64) | ppn;
}

/// The MODE field is encoded as RISC-V specifies: 0 is Bare, 8 Sv39, 9 Sv48,
/// 10 Sv57 and 11 Sv64; no other value selects a mode. `Mode::raw` gives
/// back the same numbers.
pub proof fn lemma_mode_encoding(raw: u64)
    ensures
        mode_of_raw(0) == Some(Mode::Bare),
        mode_of_raw(8) == Some(Mode::Sv39),
        mode_of_raw(9) == Some(Mode::Sv48),
        mode_of_raw(10) == Some(Mode::Sv57),
        mode_of_raw(11) == Some(Mode::Sv64),
        !(raw == 0 || raw == 8 || raw == 9 || raw == 10 || raw == 11) ==> mode_of_raw(raw) is None,
        Mode::Bare.spec_raw() == 0,
        Mode::Sv39.spec_raw() == 8,
        Mode::Sv48.spec_raw() == 9,
        Mode::Sv57.spec_raw() == 10,
        Mode::Sv64.spec_raw() == 11,
        Mode::Sv39.spec_level() == 3,
        Mode::Sv48.spec_level() == 4,
        Mode::Sv57.spec_level() == 5,
{
}

/// The root table that the `satp` value `satp_raw` selects, seen through the
/// direct map at `hhdm`; the root's physical address plus `hhdm` must fit
/// in 64 bits.
pub fn get_root_table(satp_raw: u64, hhdm: u64) -> (r: RootTable)
    requires
        satp_ppn(satp_raw) * 4096 + hhdm <= u64::MAX,
        mode_of_raw(satp_mode_raw(satp_raw)) is Some,
    ensures
        r.0 == satp_ppn(satp_raw) * 4096 + hhdm,
        Some(r.1) == mode_of_raw(satp_mode_raw(satp_raw)),
{
    let satp = Satp(satp_raw);
    RootTable(satp.phys().to_virt(hhdm).addr(), satp.mode())
}

} // verus!
