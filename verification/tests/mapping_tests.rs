use gent_kern::dma::DmaRange;
use gent_kern::mapping::{map_physical_region, map_range, page_count, physical_region_layout, unmap_range, RegionLayout};
use gent_kern::memory::{PageTable, TableMemory};
use gent_kern::paging::{Entry, Mode, PageError, RootTable};
use gent_kern::addr::VirtualAddress;
use gent_kern::pte::PageTableEntry;

const HHDM: u64 = 0xffff_8000_0000_0000;

fn table_pointer(phys: u64) -> u64 {
    ((phys >> 12) << 10) | 1
}

fn vpn(va: u64, level: u64) -> usize {
    ((va >> (12 + 9 * level)) & 0x1ff) as usize
}

/// Sv39 tables (root on level 2) covering the 2 MiB region at virtual
/// address 0x4000_0000.
fn sv39_region() -> (RootTable, TableMemory) {
    let va = 0x4000_0000u64;
    let mut mem = TableMemory::new(HHDM);
    let mut t2 = vec![0u64; 512];
    t2[vpn(va, 2)] = table_pointer(0x1_0000);
    let mut t1 = vec![0u64; 512];
    t1[vpn(va, 1)] = table_pointer(0x2_0000);
    mem.load_table(HHDM + 0x0_f000, PageTable::from_raw(t2));
    mem.load_table(HHDM + 0x1_0000, PageTable::from_raw(t1));
    mem.load_table(HHDM + 0x2_0000, PageTable::new());
    (RootTable(HHDM + 0x0_f000, Mode::Sv39), mem)
}

#[test]
fn page_counts() {
    assert_eq!(page_count(0), 0);
    assert_eq!(page_count(1), 1);
    assert_eq!(page_count(0x1000), 1);
    assert_eq!(page_count(0x1001), 2);
}

#[test]
fn range_mapping() {
    let (mut root, mut mem) = sv39_region();
    let r = map_range(&mut root, &mut mem, &mut vec![], 0x4000_0000, 0x8000_0000, 3, false);
    assert_eq!(r, Some(Ok(vec![])));
    for i in 0..3u64 {
        assert_eq!(root.read(&mem, VirtualAddress(0x4000_0000 + i * 0x1000)), (Entry::Page(HHDM + 0x8000_0000 + i * 0x1000), 0));
    }
    assert_eq!(root.read(&mem, VirtualAddress(0x4000_3000)), (Entry::Invalid, 0));
}

#[test]
fn range_mapping_over_existing_pages() {
    let (mut root, mut mem) = sv39_region();
    map_range(&mut root, &mut mem, &mut vec![], 0x4000_1000, 0x9000_0000, 1, false).unwrap().unwrap();
    let taken = PageTableEntry(table_pointer(0x9000_0000) | 0b0110);
    let strict = map_range(&mut root, &mut mem, &mut vec![], 0x4000_0000, 0x8000_0000, 3, false);
    assert_eq!(strict, Some(Err(PageError::MappingExists(taken))));
    assert_eq!(root.read(&mem, VirtualAddress(0x4000_2000)), (Entry::Invalid, 0));
    let lenient = map_range(&mut root, &mut mem, &mut vec![], 0x4000_0000, 0x8000_0000, 3, true);
    assert_eq!(lenient, Some(Ok(vec![PageTableEntry(table_pointer(0x8000_0000) | 0b0110), taken])));
    assert_eq!(root.read(&mem, VirtualAddress(0x4000_2000)), (Entry::Page(HHDM + 0x8000_2000), 0));
}

#[test]
fn firmware_region() {
    let layout = physical_region_layout(0x8765_4321, 0x1800);
    assert_eq!(layout, RegionLayout { physical_start: 0x8765_4000, size: 0x1b21, mapped_length: 0x2000 });
    let (mut root, mut mem) = sv39_region();
    let r = map_physical_region(&mut root, &mut mem, &mut vec![], layout, 0x4000_0000);
    assert_eq!(r, Some(Ok(vec![])));
    assert_eq!(root.read(&mem, VirtualAddress(0x4000_1000)), (Entry::Page(HHDM + 0x8765_5000), 0));
    assert_eq!(root.read(&mem, VirtualAddress(0x4000_2000)), (Entry::Invalid, 0));
}

#[test]
fn firmware_region_across_a_page_boundary() {
    // 0x1000 bytes at 0x1001 reach into a second page.
    let layout = physical_region_layout(0x1001, 0x1000);
    assert_eq!(layout, RegionLayout { physical_start: 0x1000, size: 0x1001, mapped_length: 0x2000 });
    assert_eq!(physical_region_layout(0x2000, 0x1000).mapped_length, 0x1000);
    assert_eq!(physical_region_layout(0x2fff, 1).mapped_length, 0x1000);
    assert_eq!(physical_region_layout(0x2fff, 2).mapped_length, 0x2000);
    let (mut root, mut mem) = sv39_region();
    let r = map_physical_region(&mut root, &mut mem, &mut vec![], layout, 0x4000_0000);
    assert_eq!(r, Some(Ok(vec![])));
    assert_eq!(root.read(&mem, VirtualAddress(0x4000_0000)), (Entry::Page(HHDM + 0x1000), 0));
    assert_eq!(root.read(&mem, VirtualAddress(0x4000_1000)), (Entry::Page(HHDM + 0x2000), 0));
    assert_eq!(root.read(&mem, VirtualAddress(0x4000_2000)), (Entry::Invalid, 0));
}

#[test]
fn dma_ranges() {
    let (mut root, mut mem) = sv39_region();
    let d = DmaRange::new_many(&mut root, &mut mem, &mut vec![], 8, 600, 0x8100_0000, 0x4000_0000).unwrap().unwrap();
    assert_eq!(d.length(), 600);
    assert_eq!(d.phys(), 0x8100_0000);
    assert_eq!(d.virt(), 0x4000_0000);
    assert_eq!(root.read(&mem, VirtualAddress(0x4000_1000)), (Entry::Page(HHDM + 0x8100_1000), 0));
    assert_eq!(root.read(&mem, VirtualAddress(0x4000_2000)), (Entry::Invalid, 0));
    let one = DmaRange::new(&mut root, &mut mem, &mut vec![], 16, 0x8200_0000, 0x4000_4000).unwrap().unwrap();
    assert_eq!(one.length(), 1);
    assert_eq!(root.read(&mem, VirtualAddress(0x4000_4000)), (Entry::Page(HHDM + 0x8200_0000), 0));
    let clash = DmaRange::new(&mut root, &mut mem, &mut vec![], 16, 0x8300_0000, 0x4000_4000);
    assert!(matches!(clash, Some(Err(PageError::MappingExists(_)))));
}

#[test]
fn running_out_of_frames() {
    // The Sv39 root has no entry for this address: `map` needs frames.
    let mut mem = TableMemory::new(HHDM);
    mem.load_table(HHDM + 0x0_f000, PageTable::new());
    let mut root = RootTable(HHDM + 0x0_f000, Mode::Sv39);
    let mut frames = vec![0x50_0000u64, 0x60_0000];
    assert_eq!(map_range(&mut root, &mut mem, &mut frames, 0x4000_0000, 0x8000_0000, 1, false), None);
    assert!(frames.is_empty());
}

#[test]
fn range_unmapping() {
    let (mut root, mut mem) = sv39_region();
    map_range(&mut root, &mut mem, &mut vec![], 0x4000_0000, 0x8000_0000, 3, false).unwrap().unwrap();
    assert_eq!(unmap_range(&mut root, &mut mem, 0x4000_0000, 2), Some(Ok(())));
    assert_eq!(root.read(&mem, VirtualAddress(0x4000_0000)), (Entry::Invalid, 0));
    assert_eq!(root.read(&mem, VirtualAddress(0x4000_1000)), (Entry::Invalid, 0));
    assert_eq!(root.read(&mem, VirtualAddress(0x4000_2000)), (Entry::Page(HHDM + 0x8000_2000), 0));
    // The first page is gone now: the run stops on it.
    assert_eq!(unmap_range(&mut root, &mut mem, 0x4000_0000, 3), Some(Err(PageError::NoMapping)));
    assert_eq!(root.read(&mem, VirtualAddress(0x4000_2000)), (Entry::Page(HHDM + 0x8000_2000), 0));
    assert_eq!(unmap_range(&mut root, &mut mem, 0x4000_2000, 1), Some(Ok(())));
}
