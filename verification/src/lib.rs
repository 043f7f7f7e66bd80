//! Verified core of the GeNT kernel: RISC-V page-table entries and walks,
//! the SATP register, the fw_cfg and ramfb device formats, DMA ranges,
//! and the small memory-mapped devices.

use vstd::prelude::*;

pub mod addr;
pub mod csr;
pub mod dma;
pub mod endian;
pub mod font;
pub mod fw_cfg;
pub mod global;
pub mod mapping;
pub mod memory;
pub mod paging;
pub mod power;
pub mod pte;
pub mod ramfb;
pub mod transit;
pub mod uart;


use crate::addr::VirtualAddress;
use crate::memory::TableMemory;
use crate::paging::{read_walk, Entry, PageSize, RootTable};

verus! {

/// What the search for the upper-half memory finds at `base`, the start of
/// the direct map: if no page is mapped there, the span (address and size of
/// the page on the level where the walk stopped) that is free for the
/// kernel's virtual allocator; otherwise `None`.
pub fn find_upperhalf_mem(root: &RootTable, mem: &TableMemory, base: u64) -> (r: Option<(u64, u64)>)
    requires
        mem@.wf(),
        root.1.is_defined(),
        read_walk(mem@, root.0, root.1.spec_root_level(), base) is Some,
    ensures
        match read_walk(mem@, root.0, root.1.spec_root_level(), base).unwrap() {
            (Entry::Invalid, level) => r == Some((base, PageSize::spec_from_level(level).spec_bytes())),
            _ => r is None,
        },
{
    let addr = base;
    let vaddr = VirtualAddress::new(addr);
    let (entry, level) = root.read(mem, vaddr);
    let size = PageSize::from_level(level).bytes();
    match entry {
        Entry::Invalid => Some((addr, size)),
        _ => None,
    }
}

} // verus!
