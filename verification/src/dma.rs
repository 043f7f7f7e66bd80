//! Ranges of memory set up for device DMA: their buffers are mapped page by
//! page at a virtual address, read and write for the kernel.

use vstd::prelude::*;
use crate::addr::PHYS_LIMIT;
use crate::mapping::{lemma_map_pages_frames, lemma_read_after_map_pages, map_pages, map_range, page_count, pages_for, translates_run};
use crate::memory::{PtMem, TableMemory};
use crate::paging::{PageError, RootTable};

verus! {

/// A run that mapped every page and took no frame translates its virtual
/// pages to its physical ones.
proof fn lemma_run_translates(
    m: PtMem,
    root: RootTable,
    virt: u64,
    phys: u64,
    n: nat,
    frames: Seq<u64>,
    m2: PtMem,
    frames2: Seq<u64>,
)
    requires
        m.wf(),
        root.1.is_defined(),
        virt + n * 0x1000 <= u64::MAX,
        map_pages(m, root, virt, phys, n, false, seq![], frames) matches Some((Ok(_), mm, ff))
            && mm == m2 && ff == frames2,
    ensures
        frames2 == frames && phys % 4096 == 0 && phys + n * 0x1000 <= PHYS_LIMIT
            && phys + n * 0x1000 + m.hhdm <= 0x1_0000_0000_0000_0000
            ==> translates_run(m2, root, virt, phys, n),
{
    if frames2 == frames && phys % 4096 == 0 && phys + n * 0x1000 <= PHYS_LIMIT
        && phys + n * 0x1000 + m.hhdm <= 0x1_0000_0000_0000_0000 {
        lemma_map_pages_frames(m, root, virt, phys, n, false, seq![], frames);
        lemma_read_after_map_pages(m, root, virt, phys, n, frames);
    }
}

/// A DMA range: `length` items of the buffer, at `virt` in the kernel's
/// address space and at `phys` for the device.
pub struct DmaRange {
    length: u64,
    virt: u64,
    phys: u64,
}

impl DmaRange {
    pub closed spec fn spec_length(&self) -> u64 {
        self.length
    }

    pub closed spec fn spec_virt(&self) -> u64 {
        self.virt
    }

    pub closed spec fn spec_phys(&self) -> u64 {
        self.phys
    }

    /// A range of `amount` items of `item_size` bytes, whose memory was
    /// taken at `phys` and `virt`; maps every page that covers it. `None`
    /// when a missing table needs a frame and none is left.
    pub fn new_many(
        root: &mut RootTable,
        mem: &mut TableMemory,
        frames: &mut Vec<u64>,
        item_size: u64,
        amount: u64,
        phys: u64,
        virt: u64,
    ) -> (r: Option<Result<Self, PageError>>)
        requires
            old(mem)@.wf(),
            old(root).1.is_defined(),
            item_size * amount <= u64::MAX,
            virt + pages_for((item_size * amount) as u64) * 0x1000 <= u64::MAX,
            phys + pages_for((item_size * amount) as u64) * 0x1000 <= u64::MAX,
        ensures
            *final(root) == *old(root),
            final(mem)@.wf(),
            r is None <==> map_pages(old(mem)@, *old(root), virt, phys, pages_for((item_size * amount) as u64), false, seq![], old(frames)@) is None,
            r is Some ==> ({
                let s = map_pages(old(mem)@, *old(root), virt, phys, pages_for((item_size * amount) as u64), false, seq![], old(frames)@).unwrap();
                &&& s.1 == final(mem)@
                &&& s.2 == final(frames)@
                &&& match r.unwrap() {
                    Ok(d) => s.0 is Ok && d.spec_length() == amount && d.spec_virt() == virt && d.spec_phys() == phys,
                    Err(e) => s.0 == Err::<Seq<crate::pte::PageTableEntry>, PageError>(e),
                }
            }),
            r matches Some(Ok(_)) && final(frames)@ == old(frames)@ && phys % 4096 == 0
                && phys + pages_for((item_size * amount) as u64) * 0x1000 <= PHYS_LIMIT
                && phys + pages_for((item_size * amount) as u64) * 0x1000 + old(mem)@.hhdm <= 0x1_0000_0000_0000_0000
                ==> translates_run(final(mem)@, *old(root), virt, phys, pages_for((item_size * amount) as u64)),
    {
        let size = item_size * amount;
        let n = page_count(size);
        let ghost (m0, root0, frames0) = (mem@, *root, frames@);
        match map_range(root, mem, frames, virt, phys, n, false) {
            None => None,
            Some(Ok(_)) => {
                proof {
                    lemma_run_translates(m0, root0, virt, phys, n as nat, frames0, mem@, frames@);
                }
                Some(Ok(DmaRange { length: amount, virt, phys }))
            },
            Some(Err(e)) => Some(Err(e)),
        }
    }

    /// A range of one item of `item_size` bytes at `phys` and `virt`.
    pub fn new(
        root: &mut RootTable,
        mem: &mut TableMemory,
        frames: &mut Vec<u64>,
        item_size: u64,
        phys: u64,
        virt: u64,
    ) -> (r: Option<Result<Self, PageError>>)
        requires
            old(mem)@.wf(),
            old(root).1.is_defined(),
            virt + pages_for(item_size) * 0x1000 <= u64::MAX,
            phys + pages_for(item_size) * 0x1000 <= u64::MAX,
        ensures
            *final(root) == *old(root),
            final(mem)@.wf(),
            r is None <==> map_pages(old(mem)@, *old(root), virt, phys, pages_for(item_size), false, seq![], old(frames)@) is None,
            r is Some ==> ({
                let s = map_pages(old(mem)@, *old(root), virt, phys, pages_for(item_size), false, seq![], old(frames)@).unwrap();
                &&& s.1 == final(mem)@
                &&& s.2 == final(frames)@
                &&& match r.unwrap() {
                    Ok(d) => s.0 is Ok && d.spec_length() == 1 && d.spec_virt() == virt && d.spec_phys() == phys,
                    Err(e) => s.0 == Err::<Seq<crate::pte::PageTableEntry>, PageError>(e),
                }
            }),
            r matches Some(Ok(_)) && final(frames)@ == old(frames)@ && phys % 4096 == 0
                && phys + pages_for(item_size) * 0x1000 <= PHYS_LIMIT
                && phys + pages_for(item_size) * 0x1000 + old(mem)@.hhdm <= 0x1_0000_0000_0000_0000
                ==> translates_run(final(mem)@, *old(root), virt, phys, pages_for(item_size)),
    {
        let n = page_count(item_size);
        let ghost (m0, root0, frames0) = (mem@, *root, frames@);
        match map_range(root, mem, frames, virt, phys, n, false) {
            None => None,
            Some(Ok(_)) => {
                proof {
                    lemma_run_translates(m0, root0, virt, phys, n as nat, frames0, mem@, frames@);
                }
                Some(Ok(DmaRange { length: 1, virt, phys }))
            },
            Some(Err(e)) => Some(Err(e)),
        }
    }

    /// Number of items in the range.
    pub fn length(&self) -> (r: u64)
        ensures
            r == self.spec_length(),
    {
        self.length
    }

    /// Where the kernel sees the range.
    pub fn virt(&self) -> (r: u64)
        ensures
            r == self.spec_virt(),
    {
        self.virt
    }

    /// Where the device sees the range.
    pub fn phys(&self) -> (r: u64)
        ensures
            r == self.spec_phys(),
    {
        self.phys
    }
}

} // verus!
