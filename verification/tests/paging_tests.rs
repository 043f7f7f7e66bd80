use gent_kern::addr::{PhysicalAddress, VirtualAddress};
use gent_kern::csr::{get_root_table, Satp};
use gent_kern::find_upperhalf_mem;
use gent_kern::memory::{PageTable, TableMemory};
use gent_kern::paging::{Entry, Mode, PageError, PagePermissions, PageSize, RootTable};
use gent_kern::pte::PageTableEntry;

const HHDM: u64 = 0xffff_8000_0000_0000;

fn table_with(entries: &[(usize, u64)]) -> PageTable {
    let mut t = PageTable::new();
    for &(i, e) in entries {
        t.set(i, PageTableEntry(e));
    }
    t
}

fn table_pointer(phys: u64) -> u64 {
    ((phys >> 12) << 10) | 1
}

fn rw() -> PagePermissions {
    PagePermissions { read: true, write: true, execute: false, user: false, global: false }
}

fn vpn(va: u64, level: u64) -> usize {
    ((va >> (12 + 9 * level)) & 0x1ff) as usize
}

#[test]
fn mode_levels_and_sizes() {
    assert_eq!(Mode::Bare.to_level(), 0);
    assert_eq!(Mode::Sv39.to_level(), 3);
    assert_eq!(Mode::Sv48.to_level(), 4);
    assert_eq!(Mode::Sv57.to_level(), 5);
    assert_eq!(Mode::Bare.max_size(), PageSize::NoPage);
    assert_eq!(Mode::Sv39.max_size(), PageSize::Kilopage);
    assert_eq!(Mode::Sv48.max_size(), PageSize::Terapage);
    assert_eq!(Mode::Sv57.max_size(), PageSize::Petapage);
    assert_eq!(Mode::Bare.higher_half(), 0);
    assert_eq!(Mode::Sv39.higher_half(), 0xffff_ffc0_0000_0000);
    assert_eq!(Mode::Sv48.higher_half(), 0xffff_8000_0000_0000);
    assert_eq!(Mode::Sv57.higher_half(), 0xff00_0000_0000_0000);
    assert_eq!(Mode::Sv39.raw(), 8);
    assert_eq!(Mode::Sv64.raw(), 11);
}

#[test]
fn page_size_conversions() {
    for level in 0..=4usize {
        assert_eq!(PageSize::from_level(level).to_level(), level);
    }
    assert_eq!(PageSize::from_level(2), PageSize::Gigapage);
    assert_eq!(PageSize::Megapage.bytes(), 0x20_0000);
    assert_eq!(PageSize::Petapage.bytes(), 0x1000_0000_0000);
    assert_eq!(PageSize::NoPage.bytes(), 0);
    assert_eq!(PageSize::NoPage.to_level(), 0);
    assert_eq!(PageSize::from_size(0x1000), PageSize::Kilopage);
    assert_eq!(PageSize::from_size(0x80_0000_0000), PageSize::Terapage);
    assert_eq!(PageSize::from_size(0), PageSize::NoPage);
    for s in [PageSize::Kilopage, PageSize::Megapage, PageSize::Gigapage, PageSize::Terapage, PageSize::Petapage] {
        assert_eq!(PageSize::from_size(s.bytes()), s);
    }
    assert!(PageSize::Petapage > PageSize::Terapage);
    assert!(PageSize::Kilopage > PageSize::NoPage);
    assert!(PageSize::Megapage < PageSize::Gigapage);
}

#[test]
fn entry_bits() {
    let mut e = PageTableEntry(0);
    assert!(!e.valid());
    e.set_valid(true);
    e.set_write(true);
    e.set_user(true);
    assert_eq!(e.0, 0b10101);
    assert!(e.valid() && e.write() && e.user() && !e.read() && !e.exec() && !e.global());
    e.set_write(false);
    assert_eq!(e.0, 0b10001);
    e.set_ppn(0xffff_ffff_ffff_ffff);
    assert_eq!(e.ppn(), 0xfff_ffff_ffff);
    assert_eq!(e.0, 0x003f_ffff_ffff_fc11);
    e.set_global(true);
    e.set_read(true);
    e.set_exec(true);
    assert_eq!(e.0 & 0x3f, 0b111011);
}

#[test]
fn phys_roundtrip() {
    let mut e = PageTableEntry(0b1011);
    e.set_phys(PhysicalAddress::new(0x8020_3000));
    assert_eq!(e.phys(), PhysicalAddress(0x8020_3000));
    assert_eq!(e.ppn(), 0x80203);
    assert_eq!(e.0 & 0x3ff, 0b1011);
    e.set_phys(PhysicalAddress::new(0x8020_3fff));
    assert_eq!(e.phys().addr(), 0x8020_3000);
}

#[test]
fn entry_classification() {
    assert_eq!(PageTableEntry(0).entry(HHDM), Entry::Invalid);
    assert_eq!(PageTableEntry(0x2000 << 10 | 0b1110).entry(HHDM), Entry::Invalid);
    assert_eq!(PageTableEntry(table_pointer(0x8000_0000)).entry(HHDM), Entry::Table(HHDM + 0x8000_0000));
    assert_eq!(PageTableEntry(table_pointer(0x8000_0000) | 0b1000).entry(HHDM), Entry::Page(HHDM + 0x8000_0000));
    assert_eq!(PageTableEntry(table_pointer(0x4000) | 0b0010).entry(0), Entry::Page(0x4000));
    // An execute-only leaf is a page, seen through the Sv48 direct map.
    assert_eq!(PageTableEntry(0x2009).entry(0xffff_8000_0000_0000), Entry::Page(0xffff_8000_0000_8000));
    assert_eq!(PageTableEntry(0x2001).entry(0xffff_ffc0_0000_0000), Entry::Table(0xffff_ffc0_0000_8000));
}

#[test]
fn entries_that_do_not_fit_the_direct_map() {
    let far = PageTableEntry(table_pointer(0x80_0000_0000_0000));
    assert!(!far.fits(0xff80_0000_0000_0000));
    assert!(far.fits(0xff7f_ffff_ffff_ffff));
    assert!(PageTableEntry(0).fits(u64::MAX));
    assert!(!PageTableEntry(table_pointer(0x1000)).fits(u64::MAX));
    // A walk that meets such an entry cannot go on.
    let hhdm = 0xff80_0000_0000_0000u64;
    let mut mem = TableMemory::new(hhdm);
    mem.load_table(0x1000, table_with(&[(0, far.0)]));
    let root = RootTable(0x1000, Mode::Sv39);
    assert_eq!(root.try_read(&mem, VirtualAddress(0)), None);
    let mut root = root;
    let r = root.try_map(&mut mem, &mut vec![], VirtualAddress(0), PhysicalAddress(0), rw(), PageSize::Kilopage);
    assert_eq!(r, None);
    // A fresh frame whose direct-map address does not fit stops `map` too.
    let mut mem2 = TableMemory::new(hhdm);
    let mut frames = vec![0x80_0000_0000_0000u64];
    let r = root.try_map(&mut mem2, &mut frames, VirtualAddress(0), PhysicalAddress(0), rw(), PageSize::Kilopage);
    assert_eq!(r, None);
    assert_eq!(frames, vec![0x80_0000_0000_0000]);
}

#[test]
fn addresses() {
    let va = VirtualAddress::new(0xffff_8123_4567_8000);
    assert_eq!(va.vpn(0), 0x078);
    assert_eq!(va.vpn(1), 0x02b);
    assert_eq!(va.vpn(2), 0x08d);
    assert_eq!(va.vpn(3), 0x102);
    assert_eq!(va.vpn(4), 0x1ff);
    assert_eq!(va.addr(), 0xffff_8123_4567_8000);
    assert_eq!(PhysicalAddress::new(0x1000).to_virt(HHDM), VirtualAddress(HHDM + 0x1000));
}

/// An Sv48 hierarchy (root on level 3) with every table present down to
/// level 0 for `va`; the level-0 table is at physical 0x13_0000.
fn sv48_chain(va: u64) -> (RootTable, TableMemory) {
    let mut mem = TableMemory::new(HHDM);
    let (p3, p2, p1, p0) = (0x10_0000u64, 0x11_0000u64, 0x12_0000u64, 0x13_0000u64);
    mem.load_table(HHDM + p3, table_with(&[(vpn(va, 3), table_pointer(p2))]));
    mem.load_table(HHDM + p2, table_with(&[(vpn(va, 2), table_pointer(p1))]));
    mem.load_table(HHDM + p1, table_with(&[(vpn(va, 1), table_pointer(p0))]));
    mem.load_table(HHDM + p0, table_with(&[]));
    (RootTable(HHDM + p3, Mode::Sv48), mem)
}

#[test]
fn map_then_read_gives_the_page() {
    let va = 0x0000_1234_5678_9000u64;
    let (mut root, mut mem) = sv48_chain(va);
    let mut frames = vec![0x9000_0000u64];
    let r = root.map(&mut mem, &mut frames, VirtualAddress(va), PhysicalAddress(0x8040_0000), rw(), PageSize::Kilopage);
    assert_eq!(r, Ok(()));
    assert_eq!(frames, vec![0x9000_0000]);
    let (entry, level) = root.read(&mem, VirtualAddress(va));
    assert_eq!(entry, Entry::Page(HHDM + 0x8040_0000));
    assert_eq!(level, 0);
    let leaf = mem.read_entry(HHDM + 0x13_0000, vpn(va, 0));
    assert_eq!(leaf, table_pointer(0x8040_0000) | 0b0110);
    // Every address inside the page ends its walk on the same entry.
    assert_eq!(root.read(&mem, VirtualAddress(va + 0x123)), (Entry::Page(HHDM + 0x8040_0000), 0));
    // The next page, which ended on another invalid entry, still does.
    assert_eq!(root.read(&mem, VirtualAddress(va + 0x1000)), (Entry::Invalid, 0));
}

#[test]
fn map_refuses_a_taken_slot() {
    let va = 0x0000_1234_5678_9000u64;
    let (mut root, mut mem) = sv48_chain(va);
    assert_eq!(root.map(&mut mem, &mut vec![], VirtualAddress(va), PhysicalAddress(0x8040_0000), rw(), PageSize::Kilopage), Ok(()));
    let before = mem.table(HHDM + 0x13_0000).raw().clone();
    let again = root.map(&mut mem, &mut vec![], VirtualAddress(va), PhysicalAddress(0x9000_0000), rw(), PageSize::Kilopage);
    assert_eq!(again, Err(PageError::MappingExists(PageTableEntry(table_pointer(0x8040_0000) | 0b0110))));
    assert_eq!(mem.table(HHDM + 0x13_0000).raw(), &before);
}

#[test]
fn map_stops_at_a_larger_page() {
    let va = 0x0000_1234_5678_9000u64;
    let mut mem = TableMemory::new(HHDM);
    mem.load_table(HHDM + 0x10_0000, table_with(&[(vpn(va, 3), table_pointer(0x11_0000))]));
    mem.load_table(HHDM + 0x11_0000, table_with(&[]));
    let mut root = RootTable(HHDM + 0x10_0000, Mode::Sv48);
    assert_eq!(root.map(&mut mem, &mut vec![], VirtualAddress(va), PhysicalAddress(0x4000_0000), rw(), PageSize::Gigapage), Ok(()));
    let giga = table_pointer(0x4000_0000) | 0b0110;
    assert_eq!(root.read(&mem, VirtualAddress(va)), (Entry::Page(HHDM + 0x4000_0000), 2));
    assert_eq!(mem.read_entry(HHDM + 0x11_0000, vpn(va, 2)), giga);
    let r = root.map(&mut mem, &mut vec![], VirtualAddress(va), PhysicalAddress(0x8000_0000), rw(), PageSize::Kilopage);
    assert_eq!(r, Err(PageError::MappingExists(PageTableEntry(giga))));
}

#[test]
fn map_refuses_oversized_pages() {
    let mut mem = TableMemory::new(HHDM);
    let mut root = RootTable(HHDM + 0x1000, Mode::Sv39);
    let mut frames = vec![0x5000u64];
    let r = root.map(&mut mem, &mut frames, VirtualAddress(0), PhysicalAddress(0), rw(), PageSize::Megapage);
    assert_eq!(r, Err(PageError::InvalidSize));
    assert_eq!(frames, vec![0x5000]);
    assert_eq!(mem.table(HHDM + 0x1000).raw(), &vec![0u64; 512]);
    let mut bare = RootTable(0, Mode::Bare);
    assert_eq!(bare.map(&mut mem, &mut frames, VirtualAddress(0), PhysicalAddress(0), rw(), PageSize::Kilopage), Err(PageError::InvalidSize));
}

#[test]
fn map_builds_tables_from_frames() {
    // An Sv48 root (level 3) without the table below it for `va`: `map` puts
    // a new table in the first frame and keeps walking on the same level,
    // inside the new frame. Here the frame already holds a pointer for that
    // index.
    let va = 0x0000_0080_0000_0000u64;
    let mut mem = TableMemory::new(HHDM);
    let root_addr = HHDM + 0x10_0000;
    mem.load_table(root_addr, table_with(&[]));
    let frame = 0x20_0000u64;
    mem.load_table(HHDM + frame, table_with(&[(vpn(va, 3), table_pointer(0x30_0000))]));
    let mut root = RootTable(root_addr, Mode::Sv48);
    let mut frames = vec![frame, 0x40_0000];
    let r = root.map(&mut mem, &mut frames, VirtualAddress(va), PhysicalAddress(0x4000_0000), rw(), PageSize::Gigapage);
    assert_eq!(r, Ok(()));
    assert_eq!(frames, vec![0x40_0000]);
    assert_eq!(mem.read_entry(root_addr, vpn(va, 3)), table_pointer(frame));
    assert_eq!(mem.read_entry(HHDM + 0x30_0000, vpn(va, 2)), table_pointer(0x4000_0000) | 0b0110);
    // The new table sits on the level where it was missing, so a read of the
    // same address, which goes one level down per table, misses the page.
    assert_eq!(root.read(&mem, VirtualAddress(va)), (Entry::Invalid, 2));
}

#[test]
fn read_stops_at_invalid_entries() {
    let mut mem = TableMemory::new(HHDM);
    let root = RootTable(HHDM + 0x1000, Mode::Sv39);
    mem.load_table(HHDM + 0x1000, table_with(&[]));
    // An Sv39 walk starts on level 2, the level of the root table.
    assert_eq!(root.read(&mem, VirtualAddress(0xffff_ffc0_0000_0000)), (Entry::Invalid, 2));
    assert_eq!(Mode::Sv39.root_level(), 2);
    assert_eq!(Mode::Sv48.root_level(), 3);
    assert_eq!(Mode::Sv57.root_level(), 4);
    assert_eq!(Mode::Bare.root_level(), 0);
}

#[test]
fn upper_half_search() {
    let mut mem = TableMemory::new(HHDM);
    let root = RootTable(HHDM + 0x1000, Mode::Sv48);
    mem.load_table(HHDM + 0x1000, table_with(&[]));
    assert_eq!(find_upperhalf_mem(&root, &mem, HHDM), Some((HHDM, 0x80_0000_0000)));
    let base = 0x0000_1234_5678_9000u64;
    let (mut root2, mut mem2) = sv48_chain(base);
    assert_eq!(find_upperhalf_mem(&root2, &mem2, base), Some((base, 0x1000)));
    root2.map(&mut mem2, &mut vec![], VirtualAddress(base), PhysicalAddress(0x1000), rw(), PageSize::Kilopage).unwrap();
    assert_eq!(find_upperhalf_mem(&root2, &mem2, base), None);
}

#[test]
fn satp_decoding() {
    let raw = (9u64 << 60) | (0x1234 << 44) | 0x8_0123;
    let satp = Satp(raw);
    assert_eq!(satp.mode_raw(), 9);
    assert_eq!(satp.asid(), 0x1234);
    assert_eq!(satp.ppn(), 0x8_0123);
    assert_eq!(satp.phys(), PhysicalAddress(0x8012_3000));
    assert_eq!(satp.mode(), Mode::Sv48);
    assert_eq!(Satp(8 << 60).mode(), Mode::Sv39);
    assert_eq!(Satp(0).mode(), Mode::Bare);
    let root = get_root_table(raw, HHDM);
    assert_eq!(root, RootTable(HHDM + 0x8012_3000, Mode::Sv48));
    let sv39 = get_root_table((8u64 << 60) | 0x8_0000, 0xffff_ffc0_0000_0000);
    assert_eq!(sv39, RootTable(0xffff_ffc0_8000_0000, Mode::Sv39));
}

#[test]
fn table_memory_reads_and_writes() {
    let mut mem = TableMemory::new(HHDM);
    assert_eq!(mem.hhdm(), HHDM);
    assert_eq!(mem.read_entry(0x5000, 7), 0);
    mem.write_entry(0x5000, 7, 42);
    assert_eq!(mem.read_entry(0x5000, 7), 42);
    assert_eq!(mem.read_entry(0x5000, 8), 0);
    assert_eq!(mem.table(0x5000).index(7), PageTableEntry(42));
    assert_eq!(mem.table(0x6000).raw(), &vec![0u64; 512]);
    let mut t = PageTable::from_raw(vec![3u64; 512]);
    t.set(511, PageTableEntry(9));
    assert_eq!(t.index(0), PageTableEntry(3));
    assert_eq!(t.index(511), PageTableEntry(9));
}

#[test]
fn try_map_reports_missing_frames() {
    let mut mem = TableMemory::new(HHDM);
    mem.load_table(HHDM + 0x1000, table_with(&[]));
    let mut root = RootTable(HHDM + 0x1000, Mode::Sv39);
    let mut frames = vec![0x7000u64];
    let r = root.try_map(&mut mem, &mut frames, VirtualAddress(0), PhysicalAddress(0x8000), rw(), PageSize::Kilopage);
    assert_eq!(r, None);
    assert!(frames.is_empty());
    assert_eq!(mem.read_entry(HHDM + 0x1000, 0), table_pointer(0x7000));
    let va = 0x0000_1234_5678_9000u64;
    let (mut root2, mut mem2) = sv48_chain(va);
    assert_eq!(root2.try_map(&mut mem2, &mut vec![], VirtualAddress(va), PhysicalAddress(0x1000), rw(), PageSize::Kilopage), Some(Ok(())));
}

#[test]
fn try_read_gives_up_below_level_zero() {
    let mut mem = TableMemory::new(HHDM);
    let va = 0u64;
    mem.load_table(HHDM + 0x1000, table_with(&[(0, table_pointer(0x2000))]));
    mem.load_table(HHDM + 0x2000, table_with(&[(0, table_pointer(0x3000))]));
    mem.load_table(HHDM + 0x3000, table_with(&[(0, table_pointer(0x4000))]));
    mem.load_table(HHDM + 0x4000, table_with(&[(0, table_pointer(0x5000))]));
    let root = RootTable(HHDM + 0x1000, Mode::Sv39);
    assert_eq!(root.try_read(&mem, VirtualAddress(va)), None);
    let mut mem2 = TableMemory::new(HHDM);
    mem2.load_table(HHDM + 0x1000, table_with(&[(0, table_pointer(0x2000))]));
    assert_eq!(root.try_read(&mem2, VirtualAddress(va)), Some((Entry::Invalid, 1)));
}

#[test]
fn mode_field_roundtrip() {
    for m in [Mode::Bare, Mode::Sv39, Mode::Sv48, Mode::Sv57, Mode::Sv64] {
        assert_eq!(Satp(m.raw() << 60).mode(), m);
    }
}

#[test]
fn read_after_map_for_every_size() {
    // Sv57 tables present down to each level; each size is mapped at its level.
    let sizes = [
        (PageSize::Petapage, 4u64),
        (PageSize::Terapage, 3),
        (PageSize::Gigapage, 2),
        (PageSize::Megapage, 1),
        (PageSize::Kilopage, 0),
    ];
    for (size, level) in sizes {
        let va = 0x00f0_0000_0000_0000u64;
        let mut mem = TableMemory::new(HHDM);
        let mut table = 0x10_0000u64;
        let mut l = 4u64;
        while l > level {
            mem.load_table(HHDM + table, table_with(&[(vpn(va, l), table_pointer(table + 0x1000))]));
            table += 0x1000;
            l -= 1;
        }
        mem.load_table(HHDM + table, table_with(&[]));
        let mut root = RootTable(HHDM + 0x10_0000, Mode::Sv57);
        let pa = size.bytes();
        let exec_only = PagePermissions { read: false, write: false, execute: true, user: true, global: true };
        assert_eq!(root.map(&mut mem, &mut vec![], VirtualAddress(va), PhysicalAddress(pa), exec_only, size), Ok(()));
        assert_eq!(root.read(&mem, VirtualAddress(va)), (Entry::Page(HHDM + pa), level as usize));
        let leaf = PageTableEntry(mem.read_entry(HHDM + table, vpn(va, level)));
        assert!(leaf.valid() && leaf.exec() && leaf.user() && leaf.global() && !leaf.read() && !leaf.write());
    }
}

#[test]
fn unmap_clears_the_page() {
    let va = 0x0000_1234_5678_9000u64;
    let (mut root, mut mem) = sv48_chain(va);
    let before = mem.table(HHDM + 0x13_0000).raw().clone();
    assert_eq!(root.unmap(&mut mem, VirtualAddress(va), PageSize::Kilopage), Err(PageError::NoMapping));
    root.map(&mut mem, &mut vec![], VirtualAddress(va), PhysicalAddress(0x8040_0000), rw(), PageSize::Kilopage).unwrap();
    let next = va + 0x1000;
    root.map(&mut mem, &mut vec![], VirtualAddress(next), PhysicalAddress(0x8050_0000), rw(), PageSize::Kilopage).unwrap();
    assert_eq!(root.unmap(&mut mem, VirtualAddress(va), PageSize::Megapage), Err(PageError::UnmappingSizeMismatch));
    assert_eq!(root.unmap(&mut mem, VirtualAddress(va), PageSize::Kilopage), Ok(()));
    assert_eq!(root.read(&mem, VirtualAddress(va)), (Entry::Invalid, 0));
    // The neighbouring page keeps its translation.
    assert_eq!(root.read(&mem, VirtualAddress(next)), (Entry::Page(HHDM + 0x8050_0000), 0));
    assert_eq!(root.unmap(&mut mem, VirtualAddress(next), PageSize::Kilopage), Ok(()));
    // Map then unmap leaves the table as it was.
    assert_eq!(mem.table(HHDM + 0x13_0000).raw(), &before);
}

#[test]
fn try_unmap_gives_up_where_read_does() {
    let mut mem = TableMemory::new(HHDM);
    mem.load_table(HHDM + 0x1000, table_with(&[(0, table_pointer(0x2000))]));
    mem.load_table(HHDM + 0x2000, table_with(&[(0, table_pointer(0x3000))]));
    mem.load_table(HHDM + 0x3000, table_with(&[(0, table_pointer(0x4000))]));
    let mut root = RootTable(HHDM + 0x1000, Mode::Sv39);
    assert_eq!(root.try_unmap(&mut mem, VirtualAddress(0), PageSize::Kilopage), None);
    assert_eq!(mem.read_entry(HHDM + 0x3000, 0), table_pointer(0x4000));
    let giga = TableMemory::new(HHDM);
    let mut mem2 = giga;
    mem2.load_table(HHDM + 0x1000, table_with(&[(0, table_pointer(0x4000_0000) | 0b0010)]));
    assert_eq!(root.try_unmap(&mut mem2, VirtualAddress(0), PageSize::Gigapage), Some(Ok(())));
    assert_eq!(mem2.read_entry(HHDM + 0x1000, 0), 0);
}

#[test]
fn page_size_rounding_up() {
    assert_eq!(PageSize::from_size_ceil(0), PageSize::NoPage);
    assert_eq!(PageSize::from_size_ceil(1), PageSize::Kilopage);
    assert_eq!(PageSize::from_size_ceil(0x1000), PageSize::Kilopage);
    assert_eq!(PageSize::from_size_ceil(0x1001), PageSize::Megapage);
    assert_eq!(PageSize::from_size_ceil(0x4000_0000), PageSize::Gigapage);
    assert_eq!(PageSize::from_size_ceil(0x4000_0001), PageSize::Terapage);
    assert_eq!(PageSize::from_size_ceil(0x1000_0000_0000), PageSize::Petapage);
}
