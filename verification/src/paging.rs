//! Sv39/Sv48/Sv57 paging: modes, page sizes, entries, and the two walks of
//! a page table, `RootTable::read` and `RootTable::map`.

use vstd::prelude::*;
use crate::addr::{vpn_of, PhysicalAddress, VirtualAddress, PHYS_LIMIT};
use crate::memory::{PtMem, TableMemory};
use crate::pte::{
    bit_of, lemma_ppn_bound, lemma_with_bit, lemma_with_ppn, phys_of, ppn_of, with_bit, with_ppn, PageTableEntry, EXEC_BIT, GLOBAL_BIT,
    READ_BIT, USER_BIT, VALID_BIT, WRITE_BIT,
};

verus! {

/// The address-translation scheme selected in `satp`.
#[derive(Clone, Copy, Debug, PartialEq, Eq, Structural)]
pub enum Mode {
    Bare,
    Sv39,
    Sv48,
    Sv57,
    Sv64,
}

/// Size of a page that one entry can map. The variants are declared from the
/// smallest to the largest so that the derived order is the order of sizes.
#[derive(Clone, Copy, Debug, PartialEq, Eq, Structural, PartialOrd, Ord)]
pub enum PageSize {
    NoPage,
    Kilopage,
    Megapage,
    Gigapage,
    Terapage,
    Petapage,
}

impl Mode {
    /// Whether the kernel knows how to use the mode (Sv64 is not specified).
    pub open spec fn is_defined(self) -> bool {
        !(self is Sv64)
    }

    /// The number of levels of page tables in this mode.
    pub open spec fn spec_level(self) -> nat {
        match self {
            Mode::Bare => 0,
            Mode::Sv39 => 3,
            Mode::Sv48 => 4,
            Mode::Sv57 => 5,
            Mode::Sv64 => 0,
        }
    }

    /// The level of the root table: one below the number of levels of the
    /// mode (a walk in Sv39 starts on level 2), and 0 in Bare mode.
    pub open spec fn spec_root_level(self) -> nat {
        if self.spec_level() == 0 {
            0
        } else {
            (self.spec_level() - 1) as nat
        }
    }

    pub open spec fn spec_max_size(self) -> PageSize {
        match self {
            Mode::Bare => PageSize::NoPage,
            Mode::Sv39 => PageSize::Kilopage,
            Mode::Sv48 => PageSize::Terapage,
            Mode::Sv57 => PageSize::Petapage,
            Mode::Sv64 => PageSize::NoPage,
        }
    }

    pub open spec fn spec_higher_half(self) -> u64 {
        match self {
            Mode::Bare => 0,
            Mode::Sv39 => 0xffff_ffc0_0000_0000,
            Mode::Sv48 => 0xffff_8000_0000_0000,
            Mode::Sv57 => 0xff00_0000_0000_0000,
            Mode::Sv64 => 0,
        }
    }

    /// The value of the MODE field of `satp` that selects this mode.
    pub open spec fn spec_raw(self) -> u64 {
        match self {
            Mode::Bare => 0,
            Mode::Sv39 => 8,
            Mode::Sv48 => 9,
            Mode::Sv57 => 10,
            Mode::Sv64 => 11,
        }
    }

    /// The number of levels of page tables in this mode.
    pub fn to_level(&self) -> (r: usize)
        requires
            self.is_defined(),
        ensures
            r == self.spec_level(),
    {
        match self {
            Mode::Bare => 0,
            Mode::Sv39 => 3,
            Mode::Sv48 => 4,
            _ => 5,
        }
    }

    /// The level of the root table, where a walk in this mode starts.
    pub fn root_level(&self) -> (r: usize)
        requires
            self.is_defined(),
        ensures
            r == self.spec_root_level(),
            r <= 4,
    {
        let levels = self.to_level();
        if levels == 0 {
            0
        } else {
            levels - 1
        }
    }

    /// The largest page that this mode can map.
    pub fn max_size(&self) -> (r: PageSize)
        requires
            self.is_defined(),
        ensures
            r == self.spec_max_size(),
    {
        match self {
            Mode::Bare => PageSize::NoPage,
            Mode::Sv39 => PageSize::Kilopage,
            Mode::Sv48 => PageSize::Terapage,
            _ => PageSize::Petapage,
        }
    }

    /// The lowest address of the higher half of the address space.
    pub fn higher_half(&self) -> (r: u64)
        requires
            self.is_defined(),
        ensures
            r == self.spec_higher_half(),
    {
        match self {
            Mode::Bare => 0,
            Mode::Sv39 => 0xffff_ffc0_0000_0000,
            Mode::Sv48 => 0xffff_8000_0000_0000,
            _ => 0xff00_0000_0000_0000,
        }
    }

    /// The value of the MODE field of `satp` that selects this mode.
    pub fn raw(&self) -> (r: u64)
        ensures
            r == self.spec_raw(),
    {
        match self {
            Mode::Bare => 0,
            Mode::Sv39 => 8,
            Mode::Sv48 => 9,
            Mode::Sv57 => 10,
            Mode::Sv64 => 11,
        }
    }
}

impl PageSize {
    /// The number of bytes in a page of this size.
    pub open spec fn spec_bytes(self) -> u64 {
        match self {
            PageSize::Petapage => 0x1000_0000_0000,
            PageSize::Terapage => 0x80_0000_0000,
            PageSize::Gigapage => 0x4000_0000,
            PageSize::Megapage => 0x20_0000,
            PageSize::Kilopage => 0x1000,
            PageSize::NoPage => 0,
        }
    }

    pub open spec fn spec_level(self) -> nat {
        match self {
            PageSize::Kilopage => 0,
            PageSize::Megapage => 1,
            PageSize::Gigapage => 2,
            PageSize::Terapage => 3,
            PageSize::Petapage => 4,
            PageSize::NoPage => 0,
        }
    }

    pub open spec fn spec_from_level(level: nat) -> PageSize {
        if level == 0 {
            PageSize::Kilopage
        } else if level == 1 {
            PageSize::Megapage
        } else if level == 2 {
            PageSize::Gigapage
        } else if level == 3 {
            PageSize::Terapage
        } else {
            PageSize::Petapage
        }
    }

    /// Whether `size` is the number of bytes of some page size.
    pub open spec fn is_page_bytes(size: u64) -> bool {
        size == 0 || size == 0x1000 || size == 0x20_0000 || size == 0x4000_0000
            || size == 0x80_0000_0000 || size == 0x1000_0000_0000
    }

    pub open spec fn spec_from_size(size: u64) -> PageSize {
        if size == 0 {
            PageSize::NoPage
        } else if size == 0x1000 {
            PageSize::Kilopage
        } else if size == 0x20_0000 {
            PageSize::Megapage
        } else if size == 0x4000_0000 {
            PageSize::Gigapage
        } else if size == 0x80_0000_0000 {
            PageSize::Terapage
        } else {
            PageSize::Petapage
        }
    }

    /// The smallest page size of at least `size` bytes.
    pub open spec fn spec_from_size_ceil(size: u64) -> PageSize {
        if size == 0 {
            PageSize::NoPage
        } else if size <= 0x1000 {
            PageSize::Kilopage
        } else if size <= 0x20_0000 {
            PageSize::Megapage
        } else if size <= 0x4000_0000 {
            PageSize::Gigapage
        } else if size <= 0x80_0000_0000 {
            PageSize::Terapage
        } else {
            PageSize::Petapage
        }
    }

    /// The number of bytes in a page of this size.
    pub fn bytes(&self) -> (r: u64)
        ensures
            r == self.spec_bytes(),
    {
        match self {
            PageSize::Petapage => 0x1000_0000_0000,
            PageSize::Terapage => 0x80_0000_0000,
            PageSize::Gigapage => 0x4000_0000,
            PageSize::Megapage => 0x20_0000,
            PageSize::Kilopage => 0x1000,
            PageSize::NoPage => 0,
        }
    }

    /// The size of a page mapped by a leaf at `level`.
    pub fn from_level(level: usize) -> (r: Self)
        requires
            level <= 4,
        ensures
            r == Self::spec_from_level(level as nat),
    {
        match level {
            0 => PageSize::Kilopage,
            1 => PageSize::Megapage,
            2 => PageSize::Gigapage,
            3 => PageSize::Terapage,
            _ => PageSize::Petapage,
        }
    }

    /// The level at which a leaf maps a page of this size.
    pub fn to_level(&self) -> (r: usize)
        ensures
            r == self.spec_level(),
    {
        match self {
            PageSize::Kilopage => 0,
            PageSize::Megapage => 1,
            PageSize::Gigapage => 2,
            PageSize::Terapage => 3,
            PageSize::Petapage => 4,
            PageSize::NoPage => 0,
        }
    }

    /// The smallest page size that holds `size` bytes, which must fit in the
    /// largest page.
    pub fn from_size_ceil(size: u64) -> (r: Self)
        requires
            size <= 0x1000_0000_0000,
        ensures
            r == Self::spec_from_size_ceil(size),
            size <= r.spec_bytes(),
            forall|p: PageSize| size <= #[trigger] p.spec_bytes() ==> r.spec_bytes() <= p.spec_bytes(),
    {
        if size == 0 {
            PageSize::NoPage
        } else if size <= 0x1000 {
            PageSize::Kilopage
        } else if size <= 0x20_0000 {
            PageSize::Megapage
        } else if size <= 0x4000_0000 {
            PageSize::Gigapage
        } else if size <= 0x80_0000_0000 {
            PageSize::Terapage
        } else {
            PageSize::Petapage
        }
    }

    /// The page size of exactly `size` bytes.
    pub fn from_size(size: u64) -> (r: Self)
        requires
            Self::is_page_bytes(size),
        ensures
            r == Self::spec_from_size(size),
            r.spec_bytes() == size,
    {
        if size == 0 {
            PageSize::NoPage
        } else if size == 0x1000 {
            PageSize::Kilopage
        } else if size == 0x20_0000 {
            PageSize::Megapage
        } else if size == 0x4000_0000 {
            PageSize::Gigapage
        } else if size == 0x80_0000_0000 {
            PageSize::Terapage
        } else {
            PageSize::Petapage
        }
    }
}

/// Access rights of a new mapping.
#[derive(Clone, Copy, Debug, PartialEq, Eq, Structural)]
pub struct PagePermissions {
    pub read: bool,
    pub write: bool,
    pub execute: bool,
    pub user: bool,
    pub global: bool,
}

/// Why a mapping could not be made.
#[derive(Clone, Copy, Debug, PartialEq, Eq, Structural)]
pub enum PageError {
    /// A valid entry already stands where the walk had to go.
    MappingExists(PageTableEntry),
    /// The page is larger than the mode can map.
    InvalidSize,
    /// No page is mapped at the address that was to be unmapped.
    NoMapping,
    /// The page mapped at the address has another size than the one given.
    UnmappingSizeMismatch,
}

/// What an entry refers to, at its virtual address in the direct map.
#[derive(Clone, Copy, Debug, PartialEq, Eq, Structural)]
pub enum Entry {
    Page(u64),
    Table(u64),
    Invalid,
}

/// How the raw entry `e` is read when tables are seen at offset `hhdm`:
/// a valid entry with any of read, write or execute set maps a page, a
/// valid entry without them points to the next table.
pub open spec fn entry_of(e: u64, hhdm: u64) -> Entry {
    if bit_of(e, VALID_BIT) {
        let a = (phys_of(e) + hhdm) as u64;
        if bit_of(e, READ_BIT) || bit_of(e, WRITE_BIT) || bit_of(e, EXEC_BIT) {
            Entry::Page(a)
        } else {
            Entry::Table(a)
        }
    } else {
        Entry::Invalid
    }
}

/// Whether `e` can be followed through the direct map at `hhdm`: a valid
/// entry's physical address plus `hhdm` fits in 64 bits.
pub open spec fn entry_fits(e: u64, hhdm: u64) -> bool {
    bit_of(e, VALID_BIT) ==> phys_of(e) + hhdm <= u64::MAX
}

impl PageTableEntry {
    /// What this entry refers to, seen through the direct map at `hhdm`.
    pub fn entry(&self, hhdm: u64) -> (r: Entry)
        requires
            entry_fits(self.0, hhdm),
        ensures
            r == entry_of(self.0, hhdm),
    {
        let phys = self.phys();
        proof {
            lemma_ppn_bound(self.0);
        }
        if self.valid() {
            let addr = phys.addr() + hhdm;
            if self.read() || self.write() || self.exec() {
                return Entry::Page(addr);
            } else {
                return Entry::Table(addr);
            }
        } else {
            return Entry::Invalid;
        }
    }

    /// Whether this entry can be followed through the direct map at `hhdm`.
    pub fn fits(&self, hhdm: u64) -> (r: bool)
        ensures
            r == entry_fits(self.0, hhdm),
    {
        !self.valid() || self.phys().addr() <= u64::MAX - hhdm
    }
}

/// A root page table: its virtual address in the direct map, and the mode
/// in which the hardware walks it.
#[derive(Clone, Copy, Debug, PartialEq, Eq, Structural)]
pub struct RootTable(pub u64, pub Mode);

/// What `RootTable::read` finds for `va` when it starts at `table` on
/// `level`: the first entry that is not a table pointer, with its level.
/// `None` when the walk cannot go on: a table pointer stands at level 0, or
/// an entry's direct-map address does not fit in 64 bits.
pub open spec fn read_walk(m: PtMem, table: u64, level: nat, va: u64) -> Option<(Entry, nat)>
    decreases level,
{
    let raw = m.entry(table, vpn_of(va, level));
    if !entry_fits(raw, m.hhdm) {
        None
    } else {
        let e = entry_of(raw, m.hhdm);
        match e {
            Entry::Table(next) => if level == 0 {
                None
            } else {
                read_walk(m, next, (level - 1) as nat, va)
            },
            _ => Some((e, level)),
        }
    }
}

/// Where the descent of `RootTable::map` stops.
pub enum WalkEnd {
    /// It reached the target level, in the table at this address.
    Reached(u64),
    /// It met this raw entry, which maps a page, above the target level.
    Blocked(u64),
}

/// The entry that `map` writes where it finds no table: a valid pointer to
/// the table at physical address `frame`.
pub open spec fn table_entry(frame: u64) -> u64 {
    with_bit(with_ppn(0, frame >> 12u64), VALID_BIT, true)
}

/// The leaf entry that `map` writes for physical address `pa`.
pub open spec fn leaf_entry(pa: u64, perms: PagePermissions) -> u64 {
    with_bit(
        with_bit(
            with_bit(
                with_bit(
                    with_bit(
                        with_bit(with_ppn(0, pa >> 12u64), READ_BIT, perms.read),
                        WRITE_BIT,
                        perms.write,
                    ),
                    EXEC_BIT,
                    perms.execute,
                ),
                USER_BIT,
                perms.user,
            ),
            GLOBAL_BIT,
            perms.global,
        ),
        VALID_BIT,
        true,
    )
}

/// The descent of `RootTable::map` from `table` on `level` down to `target`,
/// for `va`, taking fresh frames for missing tables from the front of
/// `frames`. An invalid entry is replaced by a pointer to the next frame and
/// the descent goes on in that frame on the same level. The result is where
/// it stopped, the memory and the frames left; `None` when it cannot go on:
/// it needs a frame and none is left, or a direct-map address (of an entry
/// it follows, or of a fresh frame) does not fit in 64 bits.
pub open spec fn map_walk(
    m: PtMem,
    table: u64,
    level: nat,
    target: nat,
    va: u64,
    frames: Seq<u64>,
) -> Option<(WalkEnd, PtMem, Seq<u64>)>
    decreases level, frames.len(),
{
    if level <= target {
        Some((WalkEnd::Reached(table), m, frames))
    } else {
        let idx = vpn_of(va, level);
        let raw = m.entry(table, idx);
        if !entry_fits(raw, m.hhdm) {
            None
        } else {
        match entry_of(raw, m.hhdm) {
            Entry::Table(next) => map_walk(m, next, (level - 1) as nat, target, va, frames),
            Entry::Page(_) => Some((WalkEnd::Blocked(raw), m, frames)),
            Entry::Invalid => if frames.len() == 0 || frames[0] + m.hhdm > u64::MAX {
                None
            } else {
                map_walk(
                    m.write(table, idx, table_entry(frames[0])),
                    (frames[0] + m.hhdm) as u64,
                    level,
                    target,
                    va,
                    frames.drop_first(),
                )
            },
        }
        }
    }
}

/// What `RootTable::map` does: its result, the memory after it, and the
/// frames it left unused; `None` when its descent cannot go on.
pub open spec fn map_spec(
    m: PtMem,
    root: RootTable,
    va: u64,
    pa: u64,
    perms: PagePermissions,
    size: PageSize,
    frames: Seq<u64>,
) -> Option<(Result<(), PageError>, PtMem, Seq<u64>)> {
    if size.spec_bytes() > root.1.spec_max_size().spec_bytes() {
        Some((Err(PageError::InvalidSize), m, frames))
    } else {
        match map_walk(m, root.0, root.1.spec_root_level(), size.spec_level(), va, frames) {
            None => None,
            Some((WalkEnd::Blocked(raw), m2, rest)) => Some(
                (Err(PageError::MappingExists(PageTableEntry(raw))), m2, rest),
            ),
            Some((WalkEnd::Reached(t), m2, rest)) => {
                let idx = vpn_of(va, size.spec_level());
                let raw = m2.entry(t, idx);
                if bit_of(raw, VALID_BIT) {
                    Some((Err(PageError::MappingExists(PageTableEntry(raw))), m2, rest))
                } else {
                    Some((Ok(()), m2.write(t, idx, leaf_entry(pa, perms)), rest))
                }
            },
        }
    }
}

/// The table in which the walk of `RootTable::read` for `va`, started at
/// `table` on `level`, stops.
pub open spec fn walk_table(m: PtMem, table: u64, level: nat, va: u64) -> u64
    decreases level,
{
    let raw = m.entry(table, vpn_of(va, level));
    match entry_of(raw, m.hhdm) {
        Entry::Table(next) => if level > 0 && entry_fits(raw, m.hhdm) {
            walk_table(m, next, (level - 1) as nat, va)
        } else {
            table
        },
        _ => table,
    }
}

/// The raw entry that the read walk for `va`, started at `table` on
/// `level`, ends on.
pub open spec fn walk_entry(m: PtMem, table: u64, level: nat, va: u64) -> u64 {
    m.entry(walk_table(m, table, level, va), vpn_of(va, read_walk(m, table, level, va).unwrap().1))
}

/// What `RootTable::unmap` does: its result and the memory after it. The
/// walk for `va` from the root must end on a page of `size`, whose entry is
/// then cleared; on an invalid entry it is `NoMapping`, on a page of another
/// size `UnmappingSizeMismatch`. `None` when the walk cannot go on.
pub open spec fn unmap_spec(m: PtMem, root: RootTable, va: u64, size: PageSize) -> Option<
    (Result<(), PageError>, PtMem),
> {
    let level = root.1.spec_root_level();
    match read_walk(m, root.0, level, va) {
        None => None,
        Some((Entry::Page(_), l)) => if l == size.spec_level() {
            Some((Ok(()), m.write(walk_table(m, root.0, level, va), vpn_of(va, l), 0)))
        } else {
            Some((Err(PageError::UnmappingSizeMismatch), m))
        },
        Some(_) => Some((Err(PageError::NoMapping), m)),
    }
}

impl RootTable {
    /// Finds the lowest entry for `vaddr`: the first entry on the walk from
    /// the root table that is not a table pointer, and the level where it
    /// stands.
    pub fn read(&self, mem: &TableMemory, vaddr: VirtualAddress) -> (r: (Entry, usize))
        requires
            mem@.wf(),
            self.1.is_defined(),
            read_walk(mem@, self.0, self.1.spec_root_level(), vaddr.0) is Some,
        ensures
            read_walk(mem@, self.0, self.1.spec_root_level(), vaddr.0) == Some((r.0, r.1 as nat)),
            !(r.0 is Table),
            r.1 <= self.1.spec_root_level(),
    {
        match self.try_read(mem, vaddr) {
            Some(r) => r,
            None => (Entry::Invalid, 0),
        }
    }

    /// `read` for a caller that cannot tell in advance whether the walk
    /// ends: `None` when a table pointer stands at level 0, or when an
    /// entry's direct-map address does not fit in 64 bits.
    pub fn try_read(&self, mem: &TableMemory, vaddr: VirtualAddress) -> (r: Option<(Entry, usize)>)
        requires
            mem@.wf(),
            self.1.is_defined(),
        ensures
            match r {
                Some(e) => read_walk(mem@, self.0, self.1.spec_root_level(), vaddr.0) == Some((e.0, e.1 as nat))
                    && !(e.0 is Table) && e.1 <= self.1.spec_root_level(),
                None => read_walk(mem@, self.0, self.1.spec_root_level(), vaddr.0) is None,
            },
    {
        let mut cur_level = self.1.root_level();
        let mut table = self.0;
        let hhdm = mem.hhdm();
        let ghost goal = read_walk(mem@, self.0, self.1.spec_root_level(), vaddr.0);
        loop
            invariant
                mem@.wf(),
                hhdm == mem@.hhdm,
                cur_level <= self.1.spec_root_level(),
                self.1.spec_root_level() <= 4,
                read_walk(mem@, table, cur_level as nat, vaddr.0) == goal,
                goal == read_walk(mem@, self.0, self.1.spec_root_level(), vaddr.0),
            decreases cur_level,
        {
            let entry = PageTableEntry(mem.read_entry(table, vaddr.vpn(cur_level)));
            if !entry.fits(hhdm) {
                return None;
            }
            match entry.entry(hhdm) {
                Entry::Table(next_table) => {
                    table = next_table;
                },
                _ => {
                    return Some((entry.entry(hhdm), cur_level));
                },
            }
            if cur_level == 0 {
                return None;
            }
            cur_level = cur_level - 1;
        }
    }

    /// Maps the page of `size` at `vaddr` to `paddr` with `perms`. Missing
    /// tables on the way are built in frames taken from the front of
    /// `frames` (physical addresses handed out by the frame allocator).
    pub fn map(
        &mut self,
        mem: &mut TableMemory,
        frames: &mut Vec<u64>,
        vaddr: VirtualAddress,
        paddr: PhysicalAddress,
        perms: PagePermissions,
        size: PageSize,
    ) -> (r: Result<(), PageError>)
        requires
            old(mem)@.wf(),
            old(self).1.is_defined(),
            map_spec(old(mem)@, *old(self), vaddr.0, paddr.0, perms, size, old(frames)@) is Some,
        ensures
            *final(self) == *old(self),
            final(mem)@.wf(),
            map_spec(old(mem)@, *old(self), vaddr.0, paddr.0, perms, size, old(frames)@) == Some(
                (r, final(mem)@, final(frames)@),
            ),
    {
        match self.try_map(mem, frames, vaddr, paddr, perms, size) {
            Some(r) => r,
            None => Err(PageError::InvalidSize),
        }
    }

    /// `map` for a caller that cannot tell in advance whether the descent
    /// can go on: `None` when it needs a frame and `frames` is empty, or
    /// when a direct-map address does not fit in 64 bits (the memory then
    /// holds the tables built so far).
    pub fn try_map(
        &mut self,
        mem: &mut TableMemory,
        frames: &mut Vec<u64>,
        vaddr: VirtualAddress,
        paddr: PhysicalAddress,
        perms: PagePermissions,
        size: PageSize,
    ) -> (r: Option<Result<(), PageError>>)
        requires
            old(mem)@.wf(),
            old(self).1.is_defined(),
        ensures
            *final(self) == *old(self),
            final(mem)@.wf(),
            r is None <==> map_spec(old(mem)@, *old(self), vaddr.0, paddr.0, perms, size, old(frames)@) is None,
            r is Some ==> map_spec(old(mem)@, *old(self), vaddr.0, paddr.0, perms, size, old(frames)@) == Some(
                (r.unwrap(), final(mem)@, final(frames)@),
            ),
    {
        let mut cur_level = self.1.root_level();
        let mut table = self.0;
        let hhdm = mem.hhdm();
        let target = size.to_level();

        if size.bytes() > self.1.max_size().bytes() {
            return Some(Err(PageError::InvalidSize));
        }
        proof {
            assert(target <= cur_level);
        }
        let ghost goal = map_walk(mem@, self.0, self.1.spec_root_level(), size.spec_level(), vaddr.0, frames@);

        while cur_level != target
            invariant
                mem@.wf(),
                hhdm == mem@.hhdm,
                target == size.spec_level(),
                target <= cur_level <= 4,
                map_walk(mem@, table, cur_level as nat, target as nat, vaddr.0, frames@) == goal,
                goal == map_walk(old(mem)@, self.0, self.1.spec_root_level(), size.spec_level(), vaddr.0, old(frames)@),
                size.spec_bytes() <= self.1.spec_max_size().spec_bytes(),
                *self == *old(self),
            decreases cur_level, frames@.len(),
        {
            let idx = vaddr.vpn(cur_level);
            let entry = PageTableEntry(mem.read_entry(table, idx));
            if !entry.fits(hhdm) {
                return None;
            }
            match entry.entry(hhdm) {
                Entry::Table(next_table) => {
                    table = next_table;
                    cur_level = cur_level - 1;
                },
                Entry::Page(_page) => {
                    return Some(Err(PageError::MappingExists(entry)));
                },
                Entry::Invalid => {
                    if frames.len() == 0 {
                        return None;
                    }
                    if frames[0] > u64::MAX - hhdm {
                        return None;
                    }
                    let table_paddr = PhysicalAddress::new(frames.remove(0));
                    let mut new_entry = PageTableEntry(0);
                    new_entry.set_phys(table_paddr);
                    new_entry.set_valid(true);
                    mem.write_entry(table, idx, new_entry.0);
                    table = table_paddr.to_virt(hhdm).addr();
                },
            }
        }

        let idx = vaddr.vpn(cur_level);
        let entry = PageTableEntry(mem.read_entry(table, idx));
        if entry.valid() {
            return Some(Err(PageError::MappingExists(entry)));
        } else {
            let mut leaf = PageTableEntry(0);
            leaf.set_phys(paddr);
            leaf.set_read(perms.read);
            leaf.set_write(perms.write);
            leaf.set_exec(perms.execute);
            leaf.set_user(perms.user);
            leaf.set_global(perms.global);
            leaf.set_valid(true);
            mem.write_entry(table, idx, leaf.0);
            Some(Ok(()))
        }
    }

    /// Removes the mapping of the page of `size` at `vaddr`: the entry that
    /// the walk for `vaddr` ends on is cleared. `NoMapping` when the walk ends
    /// on an invalid entry, `UnmappingSizeMismatch` when it ends on a page of
    /// another size; the memory is then left as it was.
    pub fn unmap(&mut self, mem: &mut TableMemory, vaddr: VirtualAddress, size: PageSize) -> (r: Result<(), PageError>)
        requires
            old(mem)@.wf(),
            old(self).1.is_defined(),
            read_walk(old(mem)@, old(self).0, old(self).1.spec_root_level(), vaddr.0) is Some,
        ensures
            *final(self) == *old(self),
            final(mem)@.wf(),
            unmap_spec(old(mem)@, *old(self), vaddr.0, size) == Some((r, final(mem)@)),
    {
        match self.try_unmap(mem, vaddr, size) {
            Some(r) => r,
            None => Err(PageError::NoMapping),
        }
    }

    /// `unmap` for a caller that cannot tell in advance whether the walk
    /// ends: `None`, with the memory unchanged, when a table pointer stands
    /// at level 0 or an entry's direct-map address does not fit in 64 bits.
    pub fn try_unmap(&mut self, mem: &mut TableMemory, vaddr: VirtualAddress, size: PageSize) -> (r: Option<
        Result<(), PageError>,
    >)
        requires
            old(mem)@.wf(),
            old(self).1.is_defined(),
        ensures
            *final(self) == *old(self),
            final(mem)@.wf(),
            r is None <==> unmap_spec(old(mem)@, *old(self), vaddr.0, size) is None,
            r is None ==> final(mem)@ == old(mem)@,
            r is Some ==> unmap_spec(old(mem)@, *old(self), vaddr.0, size) == Some((r.unwrap(), final(mem)@)),
    {
        let mut cur_level = self.1.root_level();
        let mut table = self.0;
        let hhdm = mem.hhdm();
        let target = size.to_level();
        let ghost level = self.1.spec_root_level();
        let ghost goal = read_walk(mem@, self.0, level, vaddr.0);
        let ghost goal_table = walk_table(mem@, self.0, level, vaddr.0);
        loop
            invariant
                mem@.wf(),
                mem@ == old(mem)@,
                *self == *old(self),
                hhdm == mem@.hhdm,
                target == size.spec_level(),
                level == self.1.spec_root_level(),
                cur_level <= level <= 4,
                read_walk(mem@, table, cur_level as nat, vaddr.0) == goal,
                walk_table(mem@, table, cur_level as nat, vaddr.0) == goal_table,
                goal == read_walk(mem@, self.0, level, vaddr.0),
                goal_table == walk_table(mem@, self.0, level, vaddr.0),
            decreases cur_level,
        {
            let idx = vaddr.vpn(cur_level);
            let entry = PageTableEntry(mem.read_entry(table, idx));
            if !entry.fits(hhdm) {
                return None;
            }
            match entry.entry(hhdm) {
                Entry::Table(next_table) => {
                    if cur_level == 0 {
                        return None;
                    }
                    table = next_table;
                    cur_level = cur_level - 1;
                },
                Entry::Page(_) => {
                    if cur_level != target {
                        return Some(Err(PageError::UnmappingSizeMismatch));
                    }
                    mem.write_entry(table, idx, 0);
                    return Some(Ok(()));
                },
                Entry::Invalid => {
                    return Some(Err(PageError::NoMapping));
                },
            }
        }
    }
}

/// The leaf entry that `map` writes is valid, carries the permissions it was
/// given and points to the page of `pa`.
pub proof fn lemma_leaf_entry(pa: u64, perms: PagePermissions)
    ensures
        bit_of(leaf_entry(pa, perms), VALID_BIT),
        bit_of(leaf_entry(pa, perms), READ_BIT) == perms.read,
        bit_of(leaf_entry(pa, perms), WRITE_BIT) == perms.write,
        bit_of(leaf_entry(pa, perms), EXEC_BIT) == perms.execute,
        bit_of(leaf_entry(pa, perms), USER_BIT) == perms.user,
        bit_of(leaf_entry(pa, perms), GLOBAL_BIT) == perms.global,
        ppn_of(leaf_entry(pa, perms)) == (pa >> 12u64) & 0xfff_ffff_ffff,
{
    let e0 = with_ppn(0, pa >> 12u64);
    let e1 = with_bit(e0, READ_BIT, perms.read);
    let e2 = with_bit(e1, WRITE_BIT, perms.write);
    let e3 = with_bit(e2, EXEC_BIT, perms.execute);
    let e4 = with_bit(e3, USER_BIT, perms.user);
    let e5 = with_bit(e4, GLOBAL_BIT, perms.global);
    let e6 = with_bit(e5, VALID_BIT, true);
    lemma_with_ppn(0, pa >> 12u64);
    lemma_with_bit(e0, READ_BIT, perms.read);
    lemma_with_bit(e1, WRITE_BIT, perms.write);
    lemma_with_bit(e2, EXEC_BIT, perms.execute);
    lemma_with_bit(e3, USER_BIT, perms.user);
    lemma_with_bit(e4, GLOBAL_BIT, perms.global);
    lemma_with_bit(e5, VALID_BIT, true);
}

/// A table pointer that `map` writes is valid, grants no access and points
/// to the page of `frame`.
pub proof fn lemma_table_entry(frame: u64)
    ensures
        bit_of(table_entry(frame), VALID_BIT),
        !bit_of(table_entry(frame), READ_BIT),
        !bit_of(table_entry(frame), WRITE_BIT),
        !bit_of(table_entry(frame), EXEC_BIT),
        ppn_of(table_entry(frame)) == (frame >> 12u64) & 0xfff_ffff_ffff,
{
    let e0 = with_ppn(0, frame >> 12u64);
    lemma_with_ppn(0, frame >> 12u64);
    lemma_with_bit(e0, VALID_BIT, true);
    assert(!bit_of(0, 1) && !bit_of(0, 2) && !bit_of(0, 3)) by (bit_vector);
}

/// A page-table index is below 512.
pub proof fn lemma_vpn_bound(va: u64, level: nat)
    ensures
        0 <= vpn_of(va, level) < 512,
{
    let s = (12 + 9 * level) as u64;
    assert((va >> s) & 0x1ff < 512) by (bit_vector);
}

/// The descent of `map` never gains frames, and when it uses none it leaves
/// the memory as it was.
pub proof fn lemma_map_walk_frames(
    m: PtMem,
    table: u64,
    level: nat,
    target: nat,
    va: u64,
    frames: Seq<u64>,
)
    requires
        m.wf(),
        map_walk(m, table, level, target, va, frames) is Some,
    ensures
        map_walk(m, table, level, target, va, frames).unwrap().2.len() <= frames.len(),
        map_walk(m, table, level, target, va, frames).unwrap().2.len() == frames.len() ==> (
            map_walk(m, table, level, target, va, frames).unwrap().1 == m
            && map_walk(m, table, level, target, va, frames).unwrap().2 == frames),
        map_walk(m, table, level, target, va, frames).unwrap().1.wf(),
        map_walk(m, table, level, target, va, frames).unwrap().1.hhdm == m.hhdm,
    decreases level, frames.len(),
{
    if level > target {
        let idx = vpn_of(va, level);
        lemma_vpn_bound(va, level);
        let raw = m.entry(table, idx);
        match entry_of(raw, m.hhdm) {
            Entry::Table(next) => {
                lemma_map_walk_frames(m, next, (level - 1) as nat, target, va, frames);
            },
            Entry::Page(_) => {},
            Entry::Invalid => {
                let m2 = m.write(table, idx, table_entry(frames[0]));
                crate::memory::lemma_write_entry(m, table, idx, table_entry(frames[0]), table, idx);
                lemma_map_walk_frames(m2, (frames[0] + m.hhdm) as u64, level, target, va, frames.drop_first());
            },
        }
    }
}

/// A read follows the descent of a `map` that built no table, and finds the
/// leaf the map wrote at its end.
proof fn lemma_read_through_reached(
    m: PtMem,
    table: u64,
    level: nat,
    target: nat,
    va: u64,
    frames: Seq<u64>,
    t: u64,
    leaf: u64,
)
    requires
        m.wf(),
        target <= level,
        map_walk(m, table, level, target, va, frames) == Some((WalkEnd::Reached(t), m, frames)),
        !bit_of(m.entry(t, vpn_of(va, target)), VALID_BIT),
        entry_fits(leaf, m.hhdm),
        entry_of(leaf, m.hhdm) is Page,
    ensures
        read_walk(m.write(t, vpn_of(va, target), leaf), table, level, va) == Some(
            (entry_of(leaf, m.hhdm), target),
        ),
        walk_table(m.write(t, vpn_of(va, target), leaf), table, level, va) == t,
    decreases level,
{
    let j = vpn_of(va, target);
    lemma_vpn_bound(va, target);
    let m2 = m.write(t, j, leaf);
    if level <= target {
        crate::memory::lemma_write_entry(m, t, j, leaf, t, j);
    } else {
        let idx = vpn_of(va, level);
        lemma_vpn_bound(va, level);
        let raw = m.entry(table, idx);
        crate::memory::lemma_write_entry(m, t, j, leaf, table, idx);
        match entry_of(raw, m.hhdm) {
            Entry::Table(next) => {
                assert(m2.entry(table, idx) == raw);
                lemma_read_through_reached(m, next, (level - 1) as nat, target, va, frames, t, leaf);
            },
            Entry::Page(_) => {},
            Entry::Invalid => {
                let m1 = m.write(table, idx, table_entry(frames[0]));
                crate::memory::lemma_write_entry(m, table, idx, table_entry(frames[0]), table, idx);
                lemma_map_walk_frames(m1, (frames[0] + m.hhdm) as u64, level, target, va, frames.drop_first());
            },
        }
    }
}

/// Read after map: once `map` has succeeded without building a table, a
/// read of the same virtual address finds the page it mapped, on the level
/// of its size, provided the page grants some access (an entry without
/// read, write and execute stands for a table pointer).
pub proof fn lemma_read_after_map(
    m: PtMem,
    root: RootTable,
    va: u64,
    pa: u64,
    perms: PagePermissions,
    size: PageSize,
    frames: Seq<u64>,
)
    requires
        m.wf(),
        root.1.is_defined(),
        map_spec(m, root, va, pa, perms, size, frames) is Some,
        map_spec(m, root, va, pa, perms, size, frames).unwrap().0 is Ok,
        map_spec(m, root, va, pa, perms, size, frames).unwrap().2 == frames,
        perms.read || perms.write || perms.execute,
        pa % 4096 == 0,
        pa < PHYS_LIMIT,
        pa + m.hhdm <= u64::MAX,
    ensures
        read_walk(
            map_spec(m, root, va, pa, perms, size, frames).unwrap().1,
            root.0,
            root.1.spec_root_level(),
            va,
        ) == Some((Entry::Page((pa + m.hhdm) as u64), size.spec_level())),
        walk_entry(map_spec(m, root, va, pa, perms, size, frames).unwrap().1, root.0, root.1.spec_root_level(), va)
            == leaf_entry(pa, perms),
{
    let target = size.spec_level();
    let w = map_walk(m, root.0, root.1.spec_root_level(), target, va, frames);
    lemma_map_walk_frames(m, root.0, root.1.spec_root_level(), target, va, frames);
    let t = w.unwrap().0->Reached_0;
    lemma_leaf_entry(pa, perms);
    let leaf = leaf_entry(pa, perms);
    assert(((pa >> 12u64) & 0xfff_ffff_ffff) * 4096 == pa) by (bit_vector)
        requires
            pa % 4096 == 0,
            pa < 0x100_0000_0000_0000u64;
    assert(entry_fits(leaf, m.hhdm));
    assert(entry_of(leaf, m.hhdm) == Entry::Page((pa + m.hhdm) as u64));
    assert(target <= root.1.spec_root_level());
    lemma_read_through_reached(m, root.0, root.1.spec_root_level(), target, va, frames, t, leaf);
    lemma_vpn_bound(va, target);
    crate::memory::lemma_write_entry(m, t, vpn_of(va, target), leaf, t, vpn_of(va, target));
}

/// A page larger than the mode can map is refused, and nothing changes.
pub proof fn lemma_map_refuses_oversized(
    m: PtMem,
    root: RootTable,
    va: u64,
    pa: u64,
    perms: PagePermissions,
    size: PageSize,
    frames: Seq<u64>,
)
    requires
        root.1.is_defined(),
        size.spec_bytes() > root.1.spec_max_size().spec_bytes(),
    ensures
        map_spec(m, root, va, pa, perms, size, frames) == Some((Err::<(), PageError>(PageError::InvalidSize), m, frames)),
{
}

/// `from_level` and `to_level` undo each other on the five page sizes and
/// the five leaf levels.
pub proof fn lemma_page_size_level_roundtrip(size: PageSize, level: nat)
    ensures
        !(size is NoPage) ==> PageSize::spec_from_level(size.spec_level()) == size,
        level <= 4 ==> PageSize::spec_from_level(level).spec_level() == level,
{
}

/// `from_size` and `bytes` undo each other.
pub proof fn lemma_page_size_bytes_roundtrip(size: PageSize, bytes: u64)
    ensures
        PageSize::is_page_bytes(size.spec_bytes()),
        PageSize::spec_from_size(size.spec_bytes()) == size,
        PageSize::is_page_bytes(bytes) ==> PageSize::spec_from_size(bytes).spec_bytes() == bytes,
{
}

/// A page that fits the mode is mapped on a level at or below the level of
/// the root table.
pub proof fn lemma_size_fits_level(mode: Mode, size: PageSize)
    requires
        mode.is_defined(),
        size.spec_bytes() <= mode.spec_max_size().spec_bytes(),
    ensures
        size.spec_level() <= mode.spec_root_level(),
{
}

/// `map` keeps the memory well formed.
pub proof fn lemma_map_spec_wf(
    m: PtMem,
    root: RootTable,
    va: u64,
    pa: u64,
    perms: PagePermissions,
    size: PageSize,
    frames: Seq<u64>,
)
    requires
        m.wf(),
        root.1.is_defined(),
        map_spec(m, root, va, pa, perms, size, frames) is Some,
    ensures
        map_spec(m, root, va, pa, perms, size, frames).unwrap().1.wf(),
{
    if size.spec_bytes() <= root.1.spec_max_size().spec_bytes() {
        lemma_map_walk_frames(m, root.0, root.1.spec_root_level(), size.spec_level(), va, frames);
        let (end, m2, rest) = map_walk(m, root.0, root.1.spec_root_level(), size.spec_level(), va, frames).unwrap();
        lemma_vpn_bound(va, size.spec_level());
        match end {
            WalkEnd::Reached(t) => {
                crate::memory::lemma_write_entry(m2, t, vpn_of(va, size.spec_level()), leaf_entry(pa, perms), t, 0);
            },
            _ => {},
        }
    }
}

/// The frames that the descent of `map` leaves are a tail of those it got.
pub proof fn lemma_map_walk_rest(
    m: PtMem,
    table: u64,
    level: nat,
    target: nat,
    va: u64,
    frames: Seq<u64>,
)
    requires
        m.wf(),
        map_walk(m, table, level, target, va, frames) is Some,
    ensures
        map_walk(m, table, level, target, va, frames).unwrap().2 == frames.subrange(
            frames.len() - map_walk(m, table, level, target, va, frames).unwrap().2.len(),
            frames.len() as int,
        ),
    decreases level, frames.len(),
{
    lemma_map_walk_frames(m, table, level, target, va, frames);
    if level > target {
        let idx = vpn_of(va, level);
        lemma_vpn_bound(va, level);
        let raw = m.entry(table, idx);
        match entry_of(raw, m.hhdm) {
            Entry::Table(next) => {
                lemma_map_walk_rest(m, next, (level - 1) as nat, target, va, frames);
            },
            Entry::Page(_) => {
                assert(frames == frames.subrange(0, frames.len() as int));
            },
            Entry::Invalid => {
                let m2 = m.write(table, idx, table_entry(frames[0]));
                crate::memory::lemma_write_entry(m, table, idx, table_entry(frames[0]), table, idx);
                lemma_map_walk_rest(m2, (frames[0] + m.hhdm) as u64, level, target, va, frames.drop_first());
                let rest = map_walk(m, table, level, target, va, frames).unwrap().2;
                assert(rest =~= frames.subrange(frames.len() - rest.len(), frames.len() as int));
            },
        }
    } else {
        assert(frames == frames.subrange(0, frames.len() as int));
    }
}

/// Overwriting a slot that holds no valid entry leaves every walk that ends
/// on a valid entry as it was: all the entries such a walk reads are valid.
pub proof fn lemma_write_invalid_keeps_walk(
    m: PtMem,
    t: u64,
    i: int,
    e: u64,
    table: u64,
    level: nat,
    va: u64,
)
    requires
        m.wf(),
        0 <= i < 512,
        !bit_of(m.entry(t, i), VALID_BIT),
        read_walk(m, table, level, va) is Some,
        !(read_walk(m, table, level, va).unwrap().0 is Invalid),
    ensures
        read_walk(m.write(t, i, e), table, level, va) == read_walk(m, table, level, va),
    decreases level,
{
    let idx = vpn_of(va, level);
    lemma_vpn_bound(va, level);
    crate::memory::lemma_write_entry(m, t, i, e, table, idx);
    let raw = m.entry(table, idx);
    if bit_of(raw, VALID_BIT) {
        assert(!(table == t && idx == i));
        match entry_of(raw, m.hhdm) {
            Entry::Table(next) => {
                if level > 0 {
                    lemma_write_invalid_keeps_walk(m, t, i, e, next, (level - 1) as nat, va);
                }
            },
            _ => {},
        }
    }
}

/// A `map` that takes no frame and succeeds writes its leaf into a slot that
/// held no valid entry, and writes nothing else.
pub proof fn lemma_map_writes_one_slot(
    m: PtMem,
    root: RootTable,
    va: u64,
    pa: u64,
    perms: PagePermissions,
    size: PageSize,
    frames: Seq<u64>,
) -> (t: u64)
    requires
        m.wf(),
        root.1.is_defined(),
        map_spec(m, root, va, pa, perms, size, frames) is Some,
        map_spec(m, root, va, pa, perms, size, frames).unwrap().0 is Ok,
        map_spec(m, root, va, pa, perms, size, frames).unwrap().2.len() == frames.len(),
    ensures
        !bit_of(m.entry(t, vpn_of(va, size.spec_level())), VALID_BIT),
        map_spec(m, root, va, pa, perms, size, frames).unwrap().1 == m.write(
            t,
            vpn_of(va, size.spec_level()),
            leaf_entry(pa, perms),
        ),
        map_spec(m, root, va, pa, perms, size, frames).unwrap().2 == frames,
{
    lemma_map_walk_frames(m, root.0, root.1.spec_root_level(), size.spec_level(), va, frames);
    map_walk(m, root.0, root.1.spec_root_level(), size.spec_level(), va, frames).unwrap().0->Reached_0
}

/// What a `map` takes from the frames is a prefix of them, and the memory
/// after it keeps its direct-map offset and its well-formedness.
pub proof fn lemma_map_spec_frames(
    m: PtMem,
    root: RootTable,
    va: u64,
    pa: u64,
    perms: PagePermissions,
    size: PageSize,
    frames: Seq<u64>,
)
    requires
        m.wf(),
        root.1.is_defined(),
        map_spec(m, root, va, pa, perms, size, frames) is Some,
    ensures
        map_spec(m, root, va, pa, perms, size, frames).unwrap().2.len() <= frames.len(),
        map_spec(m, root, va, pa, perms, size, frames).unwrap().2 == frames.subrange(
            frames.len() - map_spec(m, root, va, pa, perms, size, frames).unwrap().2.len(),
            frames.len() as int,
        ),
        map_spec(m, root, va, pa, perms, size, frames).unwrap().1.hhdm == m.hhdm,
        map_spec(m, root, va, pa, perms, size, frames).unwrap().1.wf(),
{
    lemma_map_spec_wf(m, root, va, pa, perms, size, frames);
    if size.spec_bytes() <= root.1.spec_max_size().spec_bytes() {
        lemma_map_walk_frames(m, root.0, root.1.spec_root_level(), size.spec_level(), va, frames);
        lemma_map_walk_rest(m, root.0, root.1.spec_root_level(), size.spec_level(), va, frames);
    } else {
        assert(frames == frames.subrange(0, frames.len() as int));
    }
}

/// The descent of `map` writes only into slots that held no valid entry, so
/// every walk that ended on a valid entry before it ends there after it.
pub proof fn lemma_map_walk_keeps_walks(
    m: PtMem,
    table: u64,
    level: nat,
    target: nat,
    va: u64,
    frames: Seq<u64>,
    start: u64,
    start_level: nat,
    other: u64,
)
    requires
        m.wf(),
        map_walk(m, table, level, target, va, frames) is Some,
        read_walk(m, start, start_level, other) is Some,
        !(read_walk(m, start, start_level, other).unwrap().0 is Invalid),
    ensures
        read_walk(map_walk(m, table, level, target, va, frames).unwrap().1, start, start_level, other)
            == read_walk(m, start, start_level, other),
    decreases level, frames.len(),
{
    if level > target {
        let idx = vpn_of(va, level);
        lemma_vpn_bound(va, level);
        let raw = m.entry(table, idx);
        match entry_of(raw, m.hhdm) {
            Entry::Table(next) => {
                lemma_map_walk_keeps_walks(m, next, (level - 1) as nat, target, va, frames, start, start_level, other);
            },
            Entry::Page(_) => {},
            Entry::Invalid => {
                let m2 = m.write(table, idx, table_entry(frames[0]));
                crate::memory::lemma_write_entry(m, table, idx, table_entry(frames[0]), table, idx);
                lemma_write_invalid_keeps_walk(m, table, idx, table_entry(frames[0]), start, start_level, other);
                lemma_map_walk_keeps_walks(
                    m2,
                    (frames[0] + m.hhdm) as u64,
                    level,
                    target,
                    va,
                    frames.drop_first(),
                    start,
                    start_level,
                    other,
                );
            },
        }
    }
}

/// `map` keeps the other translations: whatever it returns, and however
/// many tables it builds, every address whose walk from the root ended on a
/// page (or on a table pointer at level 0) before the call ends there after
/// it. `map` only ever writes into slots that held no valid entry.
pub proof fn lemma_map_keeps_walks(
    m: PtMem,
    root: RootTable,
    va: u64,
    pa: u64,
    perms: PagePermissions,
    size: PageSize,
    frames: Seq<u64>,
    other: u64,
)
    requires
        m.wf(),
        root.1.is_defined(),
        map_spec(m, root, va, pa, perms, size, frames) is Some,
        read_walk(m, root.0, root.1.spec_root_level(), other) is Some,
        !(read_walk(m, root.0, root.1.spec_root_level(), other).unwrap().0 is Invalid),
    ensures
        read_walk(map_spec(m, root, va, pa, perms, size, frames).unwrap().1, root.0, root.1.spec_root_level(), other)
            == read_walk(m, root.0, root.1.spec_root_level(), other),
{
    if size.spec_bytes() <= root.1.spec_max_size().spec_bytes() {
        let level = root.1.spec_root_level();
        let target = size.spec_level();
        lemma_map_walk_frames(m, root.0, level, target, va, frames);
        lemma_map_walk_keeps_walks(m, root.0, level, target, va, frames, root.0, level, other);
        let (end, m2, rest) = map_walk(m, root.0, level, target, va, frames).unwrap();
        match end {
            WalkEnd::Reached(t) => {
                let idx = vpn_of(va, target);
                lemma_vpn_bound(va, target);
                if !bit_of(m2.entry(t, idx), VALID_BIT) {
                    lemma_write_invalid_keeps_walk(m2, t, idx, leaf_entry(pa, perms), root.0, level, other);
                }
            },
            _ => {},
        }
    }
}

/// The entry a read walk ends on stands in the table where it stops, at the
/// index of its level; it can be followed, and that level is at most the
/// starting one.
pub proof fn lemma_walk_end(m: PtMem, table: u64, level: nat, va: u64)
    requires
        read_walk(m, table, level, va) is Some,
    ensures
        read_walk(m, table, level, va).unwrap().1 <= level,
        !(read_walk(m, table, level, va).unwrap().0 is Table),
        entry_of(
            m.entry(walk_table(m, table, level, va), vpn_of(va, read_walk(m, table, level, va).unwrap().1)),
            m.hhdm,
        ) == read_walk(m, table, level, va).unwrap().0,
        entry_fits(
            m.entry(walk_table(m, table, level, va), vpn_of(va, read_walk(m, table, level, va).unwrap().1)),
            m.hhdm,
        ),
    decreases level,
{
    let raw = m.entry(table, vpn_of(va, level));
    match entry_of(raw, m.hhdm) {
        Entry::Table(next) => {
            lemma_walk_end(m, next, (level - 1) as nat, va);
        },
        _ => {},
    }
}

/// Overwriting the entry a read walk ends on with an entry that can be
/// followed and is no table pointer makes the walk end there on that entry.
proof fn lemma_write_walk_end(m: PtMem, table: u64, level: nat, va: u64, e: u64)
    requires
        m.wf(),
        read_walk(m, table, level, va) is Some,
        entry_fits(e, m.hhdm),
        !(entry_of(e, m.hhdm) is Table),
    ensures
        read_walk(
            m.write(walk_table(m, table, level, va), vpn_of(va, read_walk(m, table, level, va).unwrap().1), e),
            table,
            level,
            va,
        ) == Some((entry_of(e, m.hhdm), read_walk(m, table, level, va).unwrap().1)),
    decreases level,
{
    let idx = vpn_of(va, level);
    lemma_vpn_bound(va, level);
    let raw = m.entry(table, idx);
    let l = read_walk(m, table, level, va).unwrap().1;
    let t = walk_table(m, table, level, va);
    lemma_vpn_bound(va, l);
    match entry_of(raw, m.hhdm) {
        Entry::Table(next) => {
            lemma_walk_end(m, next, (level - 1) as nat, va);
            assert(t == walk_table(m, next, (level - 1) as nat, va));
            assert(l == read_walk(m, next, (level - 1) as nat, va).unwrap().1);
            crate::memory::lemma_write_entry(m, t, vpn_of(va, l), e, table, idx);
            lemma_write_walk_end(m, next, (level - 1) as nat, va, e);
        },
        _ => {
            assert(t == table && l == level);
            crate::memory::lemma_write_entry(m, table, idx, e, table, idx);
        },
    }
}

/// A write into a slot that holds a followable entry other than a table
/// pointer leaves every read walk that does not end on that slot as it was:
/// such a walk never reads the slot.
proof fn lemma_write_off_walk(m: PtMem, t: u64, i: int, e: u64, table: u64, level: nat, va: u64)
    requires
        m.wf(),
        0 <= i < 512,
        entry_fits(m.entry(t, i), m.hhdm),
        !(entry_of(m.entry(t, i), m.hhdm) is Table),
        read_walk(m, table, level, va) is Some ==> !(walk_table(m, table, level, va) == t && vpn_of(
            va,
            read_walk(m, table, level, va).unwrap().1,
        ) == i),
    ensures
        read_walk(m.write(t, i, e), table, level, va) == read_walk(m, table, level, va),
    decreases level,
{
    let idx = vpn_of(va, level);
    lemma_vpn_bound(va, level);
    crate::memory::lemma_write_entry(m, t, i, e, table, idx);
    let raw = m.entry(table, idx);
    match entry_of(raw, m.hhdm) {
        Entry::Table(next) => {
            if level > 0 && entry_fits(raw, m.hhdm) {
                lemma_write_off_walk(m, t, i, e, next, (level - 1) as nat, va);
            }
        },
        _ => {},
    }
}

/// Where the descent of a `map` that builds no table stops, a read walk of
/// the same address stops too, on the invalid entry that `map` fills.
proof fn lemma_reached_walk(m: PtMem, table: u64, level: nat, target: nat, va: u64, frames: Seq<u64>, t: u64)
    requires
        m.wf(),
        target <= level,
        map_walk(m, table, level, target, va, frames) == Some((WalkEnd::Reached(t), m, frames)),
        !bit_of(m.entry(t, vpn_of(va, target)), VALID_BIT),
    ensures
        read_walk(m, table, level, va) == Some((Entry::Invalid, target)),
        walk_table(m, table, level, va) == t,
    decreases level,
{
    if level > target {
        let idx = vpn_of(va, level);
        lemma_vpn_bound(va, level);
        let raw = m.entry(table, idx);
        match entry_of(raw, m.hhdm) {
            Entry::Table(next) => {
                lemma_reached_walk(m, next, (level - 1) as nat, target, va, frames, t);
            },
            Entry::Page(_) => {},
            Entry::Invalid => {
                let m1 = m.write(table, idx, table_entry(frames[0]));
                crate::memory::lemma_write_entry(m, table, idx, table_entry(frames[0]), table, idx);
                lemma_map_walk_frames(m1, (frames[0] + m.hhdm) as u64, level, target, va, frames.drop_first());
            },
        }
    }
}

/// Map as an update of the translations: after a `map` that succeeds
/// without building a table, every address whose walk from the root ended
/// on the entry that `map` filled (the address mapped among them) finds the
/// new page there, and every other address translates as before.
pub proof fn lemma_map_updates_translations(
    m: PtMem,
    root: RootTable,
    va: u64,
    pa: u64,
    perms: PagePermissions,
    size: PageSize,
    frames: Seq<u64>,
    other: u64,
)
    requires
        m.wf(),
        root.1.is_defined(),
        map_spec(m, root, va, pa, perms, size, frames) is Some,
        map_spec(m, root, va, pa, perms, size, frames).unwrap().0 is Ok,
        map_spec(m, root, va, pa, perms, size, frames).unwrap().2 == frames,
        perms.read || perms.write || perms.execute,
        pa % 4096 == 0,
        pa < PHYS_LIMIT,
        pa + m.hhdm <= u64::MAX,
    ensures
        read_walk(m, root.0, root.1.spec_root_level(), va) == Some((Entry::Invalid, size.spec_level())),
        ({
            let level = root.1.spec_root_level();
            let m1 = map_spec(m, root, va, pa, perms, size, frames).unwrap().1;
            read_walk(m1, root.0, level, other) == (if read_walk(m, root.0, level, other) is Some
                && walk_table(m, root.0, level, other) == walk_table(m, root.0, level, va)
                && vpn_of(other, read_walk(m, root.0, level, other).unwrap().1) == vpn_of(va, size.spec_level()) {
                Some((Entry::Page((pa + m.hhdm) as u64), read_walk(m, root.0, level, other).unwrap().1))
            } else {
                read_walk(m, root.0, level, other)
            })
        }),
{
    let level = root.1.spec_root_level();
    let target = size.spec_level();
    lemma_map_walk_frames(m, root.0, level, target, va, frames);
    let t = map_walk(m, root.0, level, target, va, frames).unwrap().0->Reached_0;
    let j = vpn_of(va, target);
    lemma_vpn_bound(va, target);
    lemma_reached_walk(m, root.0, level, target, va, frames, t);
    lemma_leaf_entry(pa, perms);
    let leaf = leaf_entry(pa, perms);
    assert(((pa >> 12u64) & 0xfff_ffff_ffff) * 4096 == pa) by (bit_vector)
        requires
            pa % 4096 == 0,
            pa < 0x100_0000_0000_0000u64;
    assert(entry_fits(leaf, m.hhdm));
    assert(entry_of(leaf, m.hhdm) == Entry::Page((pa + m.hhdm) as u64));
    if read_walk(m, root.0, level, other) is Some && walk_table(m, root.0, level, other) == t && vpn_of(
        other,
        read_walk(m, root.0, level, other).unwrap().1,
    ) == j {
        lemma_write_walk_end(m, root.0, level, other, leaf);
    } else {
        lemma_write_off_walk(m, t, j, leaf, root.0, level, other);
    }
}

/// Read after unmap: once `unmap` has succeeded, a read of the same address
/// ends on an invalid entry, on the level of the page that was removed.
pub proof fn lemma_read_after_unmap(m: PtMem, root: RootTable, va: u64, size: PageSize)
    requires
        m.wf(),
        root.1.is_defined(),
        unmap_spec(m, root, va, size) matches Some((Ok(()), _)),
    ensures
        read_walk(unmap_spec(m, root, va, size).unwrap().1, root.0, root.1.spec_root_level(), va) == Some(
            (Entry::Invalid, size.spec_level()),
        ),
{
    assert(!bit_of(0, VALID_BIT)) by (bit_vector);
    lemma_write_walk_end(m, root.0, root.1.spec_root_level(), va, 0);
}

/// `unmap` keeps the other translations: every address whose walk from the
/// root does not end on the entry that `unmap` cleared (or does not end at
/// all) reads as before.
pub proof fn lemma_unmap_keeps_walks(m: PtMem, root: RootTable, va: u64, size: PageSize, other: u64)
    requires
        m.wf(),
        root.1.is_defined(),
        unmap_spec(m, root, va, size) is Some,
        read_walk(m, root.0, root.1.spec_root_level(), other) is Some ==> !(walk_table(
            m,
            root.0,
            root.1.spec_root_level(),
            other,
        ) == walk_table(m, root.0, root.1.spec_root_level(), va) && vpn_of(
            other,
            read_walk(m, root.0, root.1.spec_root_level(), other).unwrap().1,
        ) == vpn_of(va, read_walk(m, root.0, root.1.spec_root_level(), va).unwrap().1)),
    ensures
        read_walk(unmap_spec(m, root, va, size).unwrap().1, root.0, root.1.spec_root_level(), other)
            == read_walk(m, root.0, root.1.spec_root_level(), other),
{
    let level = root.1.spec_root_level();
    if unmap_spec(m, root, va, size).unwrap().0 is Ok {
        let l = read_walk(m, root.0, level, va).unwrap().1;
        lemma_walk_end(m, root.0, level, va);
        lemma_vpn_bound(va, l);
        lemma_write_off_walk(m, walk_table(m, root.0, level, va), vpn_of(va, l), 0, root.0, level, other);
    }
}

/// `unmap` keeps the memory well formed, and when it refuses it changes
/// nothing.
pub proof fn lemma_unmap_wf(m: PtMem, root: RootTable, va: u64, size: PageSize)
    requires
        m.wf(),
        root.1.is_defined(),
        unmap_spec(m, root, va, size) is Some,
    ensures
        unmap_spec(m, root, va, size).unwrap().1.wf(),
        unmap_spec(m, root, va, size).unwrap().1.hhdm == m.hhdm,
        unmap_spec(m, root, va, size).unwrap().0 is Err ==> unmap_spec(m, root, va, size).unwrap().1 == m,
{
    let level = root.1.spec_root_level();
    if unmap_spec(m, root, va, size).unwrap().0 is Ok {
        let l = read_walk(m, root.0, level, va).unwrap().1;
        lemma_vpn_bound(va, l);
        crate::memory::lemma_write_entry(m, walk_table(m, root.0, level, va), vpn_of(va, l), 0, 0, 0);
    }
}

/// Overwriting an entry with one that reads the same (the same kind and the
/// same address, both followable or both not) changes no read walk.
proof fn lemma_write_same_reading(m: PtMem, t: u64, i: int, e: u64, table: u64, level: nat, va: u64)
    requires
        m.wf(),
        0 <= i < 512,
        entry_fits(e, m.hhdm) == entry_fits(m.entry(t, i), m.hhdm),
        entry_of(e, m.hhdm) == entry_of(m.entry(t, i), m.hhdm),
    ensures
        read_walk(m.write(t, i, e), table, level, va) == read_walk(m, table, level, va),
    decreases level,
{
    let idx = vpn_of(va, level);
    lemma_vpn_bound(va, level);
    crate::memory::lemma_write_entry(m, t, i, e, table, idx);
    let raw = m.entry(table, idx);
    match entry_of(raw, m.hhdm) {
        Entry::Table(next) => {
            if level > 0 {
                lemma_write_same_reading(m, t, i, e, next, (level - 1) as nat, va);
            }
        },
        _ => {},
    }
}

/// Unmap undoes map: after a `map` that succeeds without building a table,
/// an `unmap` of the same address and size succeeds, and afterwards every
/// address translates as it did before the map.
pub proof fn lemma_unmap_undoes_map(
    m: PtMem,
    root: RootTable,
    va: u64,
    pa: u64,
    perms: PagePermissions,
    size: PageSize,
    frames: Seq<u64>,
    other: u64,
)
    requires
        m.wf(),
        root.1.is_defined(),
        map_spec(m, root, va, pa, perms, size, frames) is Some,
        map_spec(m, root, va, pa, perms, size, frames).unwrap().0 is Ok,
        map_spec(m, root, va, pa, perms, size, frames).unwrap().2 == frames,
        perms.read || perms.write || perms.execute,
        pa % 4096 == 0,
        pa < PHYS_LIMIT,
        pa + m.hhdm <= u64::MAX,
    ensures
        ({
            let m1 = map_spec(m, root, va, pa, perms, size, frames).unwrap().1;
            &&& unmap_spec(m1, root, va, size) matches Some((Ok(()), _))
            &&& read_walk(unmap_spec(m1, root, va, size).unwrap().1, root.0, root.1.spec_root_level(), other)
                == read_walk(m, root.0, root.1.spec_root_level(), other)
        }),
{
    let level = root.1.spec_root_level();
    let target = size.spec_level();
    lemma_map_walk_frames(m, root.0, level, target, va, frames);
    let t = map_walk(m, root.0, level, target, va, frames).unwrap().0->Reached_0;
    let j = vpn_of(va, target);
    lemma_vpn_bound(va, target);
    lemma_leaf_entry(pa, perms);
    let leaf = leaf_entry(pa, perms);
    assert(((pa >> 12u64) & 0xfff_ffff_ffff) * 4096 == pa) by (bit_vector)
        requires
            pa % 4096 == 0,
            pa < 0x100_0000_0000_0000u64;
    assert(entry_fits(leaf, m.hhdm));
    lemma_read_through_reached(m, root.0, level, target, va, frames, t, leaf);
    let m1 = m.write(t, j, leaf);
    let m2 = m1.write(t, j, 0);
    assert(m2.tables =~= m.write(t, j, 0).tables) by {
        assert(m1.table(t).update(j, 0) =~= m.table(t).update(j, 0));
    }
    assert(!bit_of(0, VALID_BIT)) by (bit_vector);
    lemma_write_same_reading(m, t, j, 0, root.0, level, other);
}

/// Overwriting a slot that holds no valid entry leaves every walk that ends
/// on a valid entry ending in the same table, on the same raw entry.
pub proof fn lemma_write_invalid_keeps_end(
    m: PtMem,
    t: u64,
    i: int,
    e: u64,
    table: u64,
    level: nat,
    va: u64,
)
    requires
        m.wf(),
        0 <= i < 512,
        !bit_of(m.entry(t, i), VALID_BIT),
        read_walk(m, table, level, va) is Some,
        !(read_walk(m, table, level, va).unwrap().0 is Invalid),
    ensures
        read_walk(m.write(t, i, e), table, level, va) == read_walk(m, table, level, va),
        walk_table(m.write(t, i, e), table, level, va) == walk_table(m, table, level, va),
        walk_entry(m.write(t, i, e), table, level, va) == walk_entry(m, table, level, va),
    decreases level,
{
    lemma_write_invalid_keeps_walk(m, t, i, e, table, level, va);
    let idx = vpn_of(va, level);
    lemma_vpn_bound(va, level);
    crate::memory::lemma_write_entry(m, t, i, e, table, idx);
    let raw = m.entry(table, idx);
    match entry_of(raw, m.hhdm) {
        Entry::Table(next) => {
            if level > 0 && entry_fits(raw, m.hhdm) {
                lemma_write_invalid_keeps_end(m, t, i, e, next, (level - 1) as nat, va);
            }
        },
        _ => {},
    }
    lemma_walk_end(m, table, level, va);
    let l = read_walk(m, table, level, va).unwrap().1;
    lemma_vpn_bound(va, l);
    crate::memory::lemma_write_entry(m, t, i, e, walk_table(m, table, level, va), vpn_of(va, l));
}

} // verus!
