//! Mapping runs of base pages: the buffers of DMA ranges and the physical
//! regions that firmware tables live in.

use vstd::prelude::*;
use crate::addr::{PhysicalAddress, VirtualAddress};
use crate::memory::{PtMem, TableMemory};
use crate::addr::PHYS_LIMIT;
use crate::paging::{
    leaf_entry, lemma_leaf_entry, lemma_map_keeps_walks, lemma_map_spec_frames, lemma_map_writes_one_slot,
    lemma_read_after_map, lemma_read_after_unmap, lemma_unmap_keeps_walks, lemma_unmap_wf, lemma_walk_end,
    lemma_write_invalid_keeps_end, map_spec, unmap_spec, read_walk, walk_entry, Entry, PageError,
    PagePermissions, PageSize, RootTable,
};
use crate::pte::{bit_of, phys_of, PageTableEntry, EXEC_BIT, GLOBAL_BIT, READ_BIT, USER_BIT, VALID_BIT, WRITE_BIT};

verus! {

/// Number of bytes in a base page.
pub const BASE_PAGE: u64 = 0x1000;

/// Read and write, no execute, kernel only, not global: how DMA buffers and
/// firmware regions are mapped.
pub open spec fn rw_kernel() -> PagePermissions {
    PagePermissions { read: true, write: true, execute: false, user: false, global: false }
}

/// The number of base pages needed to cover `size` bytes.
pub open spec fn pages_for(size: u64) -> nat {
    ((size as nat + 0xfff) / 0x1000) as nat
}

/// Mapping `n` base pages, the first at `va` to `pa`, the next one page
/// further on each side. When `tolerate_existing` holds, a page that is
/// already mapped is recorded in `skipped` and passed over; any other error
/// ends the run. The result holds the entries that were passed over, the
/// memory after the run and the frames left; `None` when it runs out of
/// frames.
pub open spec fn map_pages(
    m: PtMem,
    root: RootTable,
    va: u64,
    pa: u64,
    n: nat,
    tolerate_existing: bool,
    skipped: Seq<PageTableEntry>,
    frames: Seq<u64>,
) -> Option<(Result<Seq<PageTableEntry>, PageError>, PtMem, Seq<u64>)>
    decreases n,
{
    if n == 0 {
        Some((Ok(skipped), m, frames))
    } else {
        match map_spec(m, root, va, pa, rw_kernel(), PageSize::Kilopage, frames) {
            None => None,
            Some((Ok(()), m2, rest)) => map_pages(
                m2,
                root,
                (va + 0x1000) as u64,
                (pa + 0x1000) as u64,
                (n - 1) as nat,
                tolerate_existing,
                skipped,
                rest,
            ),
            Some((Err(PageError::MappingExists(e)), m2, rest)) => if tolerate_existing {
                map_pages(
                    m2,
                    root,
                    (va + 0x1000) as u64,
                    (pa + 0x1000) as u64,
                    (n - 1) as nat,
                    tolerate_existing,
                    skipped.push(e),
                    rest,
                )
            } else {
                Some((Err(PageError::MappingExists(e)), m2, rest))
            },
            Some((Err(e), m2, rest)) => Some((Err(e), m2, rest)),
        }
    }
}

/// The address `i` base pages past `base`.
pub open spec fn nth_page(base: u64, i: nat) -> u64 {
    (base + i * 0x1000) as u64
}

/// A run of mappings never gains frames.
pub proof fn lemma_map_pages_frames(
    m: PtMem,
    root: RootTable,
    va: u64,
    pa: u64,
    n: nat,
    tolerate_existing: bool,
    skipped: Seq<PageTableEntry>,
    frames: Seq<u64>,
)
    requires
        m.wf(),
        root.1.is_defined(),
        map_pages(m, root, va, pa, n, tolerate_existing, skipped, frames) is Some,
    ensures
        map_pages(m, root, va, pa, n, tolerate_existing, skipped, frames).unwrap().2.len() <= frames.len(),
        map_pages(m, root, va, pa, n, tolerate_existing, skipped, frames).unwrap().1.hhdm == m.hhdm,
    decreases n,
{
    if n > 0 {
        lemma_map_spec_frames(m, root, va, pa, rw_kernel(), PageSize::Kilopage, frames);
        let (res, m1, f1) = map_spec(m, root, va, pa, rw_kernel(), PageSize::Kilopage, frames).unwrap();
        match res {
            Ok(()) => lemma_map_pages_frames(m1, root, (va + 0x1000) as u64, (pa + 0x1000) as u64, (n - 1) as nat, tolerate_existing, skipped, f1),
            Err(PageError::MappingExists(e)) => if tolerate_existing {
                lemma_map_pages_frames(m1, root, (va + 0x1000) as u64, (pa + 0x1000) as u64, (n - 1) as nat, tolerate_existing, skipped.push(e), f1)
            },
            Err(_) => {},
        }
    }
}

/// A run of mappings keeps the other translations: whatever it returns, and
/// however many tables it builds, every address whose walk from the root
/// ended on a page (or on a table pointer at level 0) before the run ends
/// there after it.
pub proof fn lemma_map_pages_keeps_walks(
    m: PtMem,
    root: RootTable,
    va: u64,
    pa: u64,
    n: nat,
    tolerate_existing: bool,
    skipped: Seq<PageTableEntry>,
    frames: Seq<u64>,
    other: u64,
)
    requires
        m.wf(),
        root.1.is_defined(),
        map_pages(m, root, va, pa, n, tolerate_existing, skipped, frames) is Some,
        read_walk(m, root.0, root.1.spec_root_level(), other) is Some,
        !(read_walk(m, root.0, root.1.spec_root_level(), other).unwrap().0 is Invalid),
    ensures
        read_walk(
            map_pages(m, root, va, pa, n, tolerate_existing, skipped, frames).unwrap().1,
            root.0,
            root.1.spec_root_level(),
            other,
        ) == read_walk(m, root.0, root.1.spec_root_level(), other),
    decreases n,
{
    if n > 0 {
        lemma_map_spec_frames(m, root, va, pa, rw_kernel(), PageSize::Kilopage, frames);
        lemma_map_keeps_walks(m, root, va, pa, rw_kernel(), PageSize::Kilopage, frames, other);
        let (res, m1, f1) = map_spec(m, root, va, pa, rw_kernel(), PageSize::Kilopage, frames).unwrap();
        match res {
            Ok(()) => lemma_map_pages_keeps_walks(
                m1,
                root,
                (va + 0x1000) as u64,
                (pa + 0x1000) as u64,
                (n - 1) as nat,
                tolerate_existing,
                skipped,
                f1,
                other,
            ),
            Err(PageError::MappingExists(e)) => if tolerate_existing {
                lemma_map_pages_keeps_walks(
                    m1,
                    root,
                    (va + 0x1000) as u64,
                    (pa + 0x1000) as u64,
                    (n - 1) as nat,
                    tolerate_existing,
                    skipped.push(e),
                    f1,
                    other,
                )
            },
            Err(_) => {},
        }
    }
}

/// Each of the `n` base pages from `virt` translates, in `m` walked from
/// the root, to the page as far into the run from `phys`, mapped on level 0.
pub open spec fn translates_run(m: PtMem, root: RootTable, virt: u64, phys: u64, n: nat) -> bool {
    forall|i: nat|
        i < n ==> read_walk(m, root.0, root.1.spec_root_level(), #[trigger] nth_page(virt, i))
            == Some((Entry::Page((nth_page(phys, i) + m.hhdm) as u64), 0nat))
}

/// Read after a run of mappings: once `n` base pages from `va` have been
/// mapped to the page-aligned `pa` onward, without error and without taking
/// a frame, page `i` of the run reads as the page at `pa + i * 0x1000`.
pub proof fn lemma_read_after_map_pages(
    m: PtMem,
    root: RootTable,
    va: u64,
    pa: u64,
    n: nat,
    frames: Seq<u64>,
)
    requires
        m.wf(),
        root.1.is_defined(),
        map_pages(m, root, va, pa, n, false, seq![], frames) is Some,
        map_pages(m, root, va, pa, n, false, seq![], frames).unwrap().0 is Ok,
        map_pages(m, root, va, pa, n, false, seq![], frames).unwrap().2 == frames,
        pa % 4096 == 0,
        pa + n * 0x1000 <= PHYS_LIMIT,
        pa + n * 0x1000 + m.hhdm <= 0x1_0000_0000_0000_0000,
        va + n * 0x1000 <= u64::MAX,
    ensures
        forall|i: nat|
            i < n ==> read_walk(
                map_pages(m, root, va, pa, n, false, seq![], frames).unwrap().1,
                root.0,
                root.1.spec_root_level(),
                #[trigger] nth_page(va, i),
            ) == Some((Entry::Page((nth_page(pa, i) + m.hhdm) as u64), 0nat)),
    decreases n,
{
    if n > 0 {
        let m2 = map_pages(m, root, va, pa, n, false, seq![], frames).unwrap().1;
        lemma_map_spec_frames(m, root, va, pa, rw_kernel(), PageSize::Kilopage, frames);
        let (res, m1, f1) = map_spec(m, root, va, pa, rw_kernel(), PageSize::Kilopage, frames).unwrap();
        lemma_map_pages_frames(m1, root, (va + 0x1000) as u64, (pa + 0x1000) as u64, (n - 1) as nat, false, seq![], f1);
        assert(f1.len() == frames.len());
        lemma_map_writes_one_slot(m, root, va, pa, rw_kernel(), PageSize::Kilopage, frames);
        lemma_read_after_map(m, root, va, pa, rw_kernel(), PageSize::Kilopage, frames);
        lemma_map_pages_keeps_walks(m1, root, (va + 0x1000) as u64, (pa + 0x1000) as u64, (n - 1) as nat, false, seq![], f1, va);
        lemma_read_after_map_pages(m1, root, (va + 0x1000) as u64, (pa + 0x1000) as u64, (n - 1) as nat, f1);
        assert forall|i: nat| i < n implies read_walk(
            m2,
            root.0,
            root.1.spec_root_level(),
            #[trigger] nth_page(va, i),
        ) == Some((Entry::Page((nth_page(pa, i) + m.hhdm) as u64), 0nat)) by {
            if i > 0 {
                let k = (i - 1) as nat;
                assert(nth_page((va + 0x1000) as u64, k) == nth_page(va, i));
                assert(nth_page((pa + 0x1000) as u64, k) == nth_page(pa, i));
            } else {
                assert(nth_page(va, 0) == va);
                assert(nth_page(pa, 0) == pa);
            }
        }
    }
}

/// Each of the `n` base pages from `va` translates, in `m` walked from the
/// root, to the page as far into the run from `pa`, through a valid leaf on
/// level 0 that allows reading and writing, forbids executing, is for the
/// kernel only and not global, and points at that physical page.
pub open spec fn run_mapped_rw(m: PtMem, root: RootTable, va: u64, pa: u64, n: nat) -> bool {
    forall|i: nat|
        i < n ==> {
            let e = walk_entry(m, root.0, root.1.spec_root_level(), #[trigger] nth_page(va, i));
            &&& read_walk(m, root.0, root.1.spec_root_level(), nth_page(va, i))
                == Some((Entry::Page((nth_page(pa, i) + m.hhdm) as u64), 0nat))
            &&& bit_of(e, VALID_BIT)
            &&& bit_of(e, READ_BIT)
            &&& bit_of(e, WRITE_BIT)
            &&& !bit_of(e, EXEC_BIT)
            &&& !bit_of(e, USER_BIT)
            &&& !bit_of(e, GLOBAL_BIT)
            &&& phys_of(e) == nth_page(pa, i)
        }
}

/// A run that finds no page mapped already does the same whether or not it
/// tolerates existing mappings; and a tolerating run only ever adds to the
/// entries it passes over.
pub proof fn lemma_map_pages_tolerance(
    m: PtMem,
    root: RootTable,
    va: u64,
    pa: u64,
    n: nat,
    skipped: Seq<PageTableEntry>,
    frames: Seq<u64>,
)
    ensures
        map_pages(m, root, va, pa, n, true, skipped, frames) matches Some((Ok(s), _, _)) ==> s.len() >= skipped.len(),
        map_pages(m, root, va, pa, n, true, skipped, frames) matches Some((Ok(s), _, _)) && s.len() == skipped.len()
            ==> map_pages(m, root, va, pa, n, true, skipped, frames) == map_pages(m, root, va, pa, n, false, skipped, frames),
    decreases n,
{
    if n > 0 {
        match map_spec(m, root, va, pa, rw_kernel(), PageSize::Kilopage, frames) {
            None => {},
            Some((Ok(()), m2, rest)) => {
                lemma_map_pages_tolerance(m2, root, (va + 0x1000) as u64, (pa + 0x1000) as u64, (n - 1) as nat, skipped, rest);
            },
            Some((Err(PageError::MappingExists(e)), m2, rest)) => {
                lemma_map_pages_tolerance(
                    m2,
                    root,
                    (va + 0x1000) as u64,
                    (pa + 0x1000) as u64,
                    (n - 1) as nat,
                    skipped.push(e),
                    rest,
                );
            },
            Some((Err(_), _, _)) => {},
        }
    }
}

/// A run that maps every page without error and without taking a frame
/// leaves every address whose walk ended on a valid entry ending on the same
/// raw entry.
proof fn lemma_map_pages_keeps_ends(
    m: PtMem,
    root: RootTable,
    va: u64,
    pa: u64,
    n: nat,
    frames: Seq<u64>,
    other: u64,
)
    requires
        m.wf(),
        root.1.is_defined(),
        map_pages(m, root, va, pa, n, false, seq![], frames) matches Some((Ok(_), _, f)) && f.len() == frames.len(),
        read_walk(m, root.0, root.1.spec_root_level(), other) is Some,
        !(read_walk(m, root.0, root.1.spec_root_level(), other).unwrap().0 is Invalid),
    ensures
        read_walk(map_pages(m, root, va, pa, n, false, seq![], frames).unwrap().1, root.0, root.1.spec_root_level(), other)
            == read_walk(m, root.0, root.1.spec_root_level(), other),
        walk_entry(map_pages(m, root, va, pa, n, false, seq![], frames).unwrap().1, root.0, root.1.spec_root_level(), other)
            == walk_entry(m, root.0, root.1.spec_root_level(), other),
    decreases n,
{
    if n > 0 {
        lemma_map_spec_frames(m, root, va, pa, rw_kernel(), PageSize::Kilopage, frames);
        let (res, m1, f1) = map_spec(m, root, va, pa, rw_kernel(), PageSize::Kilopage, frames).unwrap();
        lemma_map_pages_frames(m1, root, (va + 0x1000) as u64, (pa + 0x1000) as u64, (n - 1) as nat, false, seq![], f1);
        let t = lemma_map_writes_one_slot(m, root, va, pa, rw_kernel(), PageSize::Kilopage, frames);
        crate::paging::lemma_vpn_bound(va, 0);
        lemma_write_invalid_keeps_end(m, t, crate::addr::vpn_of(va, 0), leaf_entry(pa, rw_kernel()), root.0, root.1.spec_root_level(), other);
        lemma_map_pages_keeps_ends(m1, root, (va + 0x1000) as u64, (pa + 0x1000) as u64, (n - 1) as nat, f1, other);
    }
}

/// Every page of a run that maps them all without error and without taking
/// a frame ends its walk on the leaf that `map` writes for it.
proof fn lemma_map_pages_leaf_entries(m: PtMem, root: RootTable, va: u64, pa: u64, n: nat, frames: Seq<u64>)
    requires
        m.wf(),
        root.1.is_defined(),
        map_pages(m, root, va, pa, n, false, seq![], frames) matches Some((Ok(_), _, f)) && f == frames,
        pa % 4096 == 0,
        pa + n * 0x1000 <= PHYS_LIMIT,
        pa + n * 0x1000 + m.hhdm <= 0x1_0000_0000_0000_0000,
        va + n * 0x1000 <= u64::MAX,
    ensures
        forall|i: nat|
            i < n ==> walk_entry(
                map_pages(m, root, va, pa, n, false, seq![], frames).unwrap().1,
                root.0,
                root.1.spec_root_level(),
                #[trigger] nth_page(va, i),
            ) == leaf_entry(nth_page(pa, i), rw_kernel()),
    decreases n,
{
    if n > 0 {
        let m2 = map_pages(m, root, va, pa, n, false, seq![], frames).unwrap().1;
        lemma_map_spec_frames(m, root, va, pa, rw_kernel(), PageSize::Kilopage, frames);
        let (res, m1, f1) = map_spec(m, root, va, pa, rw_kernel(), PageSize::Kilopage, frames).unwrap();
        lemma_map_pages_frames(m1, root, (va + 0x1000) as u64, (pa + 0x1000) as u64, (n - 1) as nat, false, seq![], f1);
        assert(f1.len() == frames.len());
        lemma_map_writes_one_slot(m, root, va, pa, rw_kernel(), PageSize::Kilopage, frames);
        lemma_read_after_map(m, root, va, pa, rw_kernel(), PageSize::Kilopage, frames);
        lemma_map_pages_keeps_ends(m1, root, (va + 0x1000) as u64, (pa + 0x1000) as u64, (n - 1) as nat, f1, va);
        lemma_map_pages_leaf_entries(m1, root, (va + 0x1000) as u64, (pa + 0x1000) as u64, (n - 1) as nat, f1);
        assert forall|i: nat| i < n implies walk_entry(
            m2,
            root.0,
            root.1.spec_root_level(),
            #[trigger] nth_page(va, i),
        ) == leaf_entry(nth_page(pa, i), rw_kernel()) by {
            if i > 0 {
                let k = (i - 1) as nat;
                assert(nth_page((va + 0x1000) as u64, k) == nth_page(va, i));
                assert(nth_page((pa + 0x1000) as u64, k) == nth_page(pa, i));
            } else {
                assert(nth_page(va, 0) == va);
                assert(nth_page(pa, 0) == pa);
            }
        }
    }
}

/// How DMA buffers and firmware regions are mapped: once a run has mapped
/// all its pages (finding none mapped already) without taking a frame,
/// whether or not it tolerated existing mappings, page `i` from `va`
/// translates to the page `i` from `pa`, through a valid leaf that allows
/// reading and writing, forbids executing, is for the kernel only and not
/// global, and points at that physical page.
pub proof fn lemma_map_pages_leaves(
    m: PtMem,
    root: RootTable,
    va: u64,
    pa: u64,
    n: nat,
    tolerate_existing: bool,
    frames: Seq<u64>,
)
    requires
        m.wf(),
        root.1.is_defined(),
        map_pages(m, root, va, pa, n, tolerate_existing, seq![], frames) matches Some((Ok(s), _, f))
            && s.len() == 0 && f == frames,
        pa % 4096 == 0,
        pa + n * 0x1000 <= PHYS_LIMIT,
        pa + n * 0x1000 + m.hhdm <= 0x1_0000_0000_0000_0000,
        va + n * 0x1000 <= u64::MAX,
    ensures
        forall|i: nat|
            i < n ==> {
                let m2 = map_pages(m, root, va, pa, n, tolerate_existing, seq![], frames).unwrap().1;
                let e = walk_entry(m2, root.0, root.1.spec_root_level(), #[trigger] nth_page(va, i));
                &&& read_walk(m2, root.0, root.1.spec_root_level(), nth_page(va, i))
                    == Some((Entry::Page((nth_page(pa, i) + m.hhdm) as u64), 0nat))
                &&& bit_of(e, VALID_BIT)
                &&& bit_of(e, READ_BIT)
                &&& bit_of(e, WRITE_BIT)
                &&& !bit_of(e, EXEC_BIT)
                &&& !bit_of(e, USER_BIT)
                &&& !bit_of(e, GLOBAL_BIT)
                &&& phys_of(e) == nth_page(pa, i)
            },
        run_mapped_rw(
            map_pages(m, root, va, pa, n, tolerate_existing, seq![], frames).unwrap().1,
            root,
            va,
            pa,
            n,
        ),
{
    lemma_map_pages_tolerance(m, root, va, pa, n, seq![], frames);
    lemma_map_pages_frames(m, root, va, pa, n, tolerate_existing, seq![], frames);
    lemma_read_after_map_pages(m, root, va, pa, n, frames);
    lemma_map_pages_leaf_entries(m, root, va, pa, n, frames);
    assert forall|i: nat| i < n implies {
        let m2 = map_pages(m, root, va, pa, n, tolerate_existing, seq![], frames).unwrap().1;
        let e = walk_entry(m2, root.0, root.1.spec_root_level(), #[trigger] nth_page(va, i));
        &&& read_walk(m2, root.0, root.1.spec_root_level(), nth_page(va, i))
            == Some((Entry::Page((nth_page(pa, i) + m.hhdm) as u64), 0nat))
        &&& bit_of(e, VALID_BIT)
        &&& bit_of(e, READ_BIT)
        &&& bit_of(e, WRITE_BIT)
        &&& !bit_of(e, EXEC_BIT)
        &&& !bit_of(e, USER_BIT)
        &&& !bit_of(e, GLOBAL_BIT)
        &&& phys_of(e) == nth_page(pa, i)
    } by {
        let p = nth_page(pa, i);
        lemma_leaf_entry(p, rw_kernel());
        assert(p % 4096 == 0 && p < PHYS_LIMIT) by (nonlinear_arith)
            requires
                p == (pa + i * 0x1000) as u64,
                pa % 4096 == 0,
                i < n,
                pa + n * 0x1000 <= PHYS_LIMIT;
        assert(((p >> 12u64) & 0xfff_ffff_ffff) * 4096 == p) by (bit_vector)
            requires
                p % 4096 == 0,
                p < 0x100_0000_0000_0000u64;
    }
}

/// Unmapping runs of pages keeps every address whose walk ended on an
/// invalid entry: each unmap clears an entry that mapped a page.
proof fn lemma_unmap_pages_keeps_invalid(m: PtMem, root: RootTable, va: u64, n: nat, other: u64)
    requires
        m.wf(),
        root.1.is_defined(),
        unmap_pages(m, root, va, n) is Some,
        read_walk(m, root.0, root.1.spec_root_level(), other) matches Some((Entry::Invalid, _)),
    ensures
        read_walk(unmap_pages(m, root, va, n).unwrap().1, root.0, root.1.spec_root_level(), other)
            == read_walk(m, root.0, root.1.spec_root_level(), other),
    decreases n,
{
    if n > 0 {
        lemma_unmap_wf(m, root, va, PageSize::Kilopage);
        let (res, m1) = unmap_spec(m, root, va, PageSize::Kilopage).unwrap();
        if res is Ok {
            let level = root.1.spec_root_level();
            lemma_walk_end(m, root.0, level, other);
            lemma_walk_end(m, root.0, level, va);
            lemma_unmap_keeps_walks(m, root, va, PageSize::Kilopage, other);
            lemma_unmap_pages_keeps_invalid(m1, root, (va + 0x1000) as u64, (n - 1) as nat, other);
        }
    }
}

/// Unmapping a run of pages: once it has succeeded, each of the `n` pages
/// from `va` reads as an invalid entry on level 0.
pub proof fn lemma_unmap_pages_clears(m: PtMem, root: RootTable, va: u64, n: nat)
    requires
        m.wf(),
        root.1.is_defined(),
        unmap_pages(m, root, va, n) matches Some((Ok(()), _)),
        va + n * 0x1000 <= u64::MAX,
    ensures
        forall|i: nat|
            i < n ==> read_walk(
                unmap_pages(m, root, va, n).unwrap().1,
                root.0,
                root.1.spec_root_level(),
                #[trigger] nth_page(va, i),
            ) == Some((Entry::Invalid, 0nat)),
    decreases n,
{
    if n > 0 {
        let m2 = unmap_pages(m, root, va, n).unwrap().1;
        lemma_unmap_wf(m, root, va, PageSize::Kilopage);
        let (res, m1) = unmap_spec(m, root, va, PageSize::Kilopage).unwrap();
        lemma_read_after_unmap(m, root, va, PageSize::Kilopage);
        lemma_unmap_pages_keeps_invalid(m1, root, (va + 0x1000) as u64, (n - 1) as nat, va);
        lemma_unmap_pages_clears(m1, root, (va + 0x1000) as u64, (n - 1) as nat);
        assert forall|i: nat| i < n implies read_walk(
            m2,
            root.0,
            root.1.spec_root_level(),
            #[trigger] nth_page(va, i),
        ) == Some((Entry::Invalid, 0nat)) by {
            if i > 0 {
                let k = (i - 1) as nat;
                assert(nth_page((va + 0x1000) as u64, k) == nth_page(va, i));
            } else {
                assert(nth_page(va, 0) == va);
            }
        }
    }
}

/// A run of unmappings stops at the first page that cannot be unmapped,
/// with that page's error (no mapping, or a page of another size), and
/// changes nothing more.
pub proof fn lemma_unmap_pages_stops(m: PtMem, root: RootTable, va: u64, n: nat)
    requires
        m.wf(),
        root.1.is_defined(),
        n > 0,
        unmap_spec(m, root, va, PageSize::Kilopage) matches Some((Err(_), _)),
    ensures
        unmap_pages(m, root, va, n) == Some((unmap_spec(m, root, va, PageSize::Kilopage).unwrap().0, m)),
        unmap_spec(m, root, va, PageSize::Kilopage).unwrap().0 == Err::<(), PageError>(PageError::NoMapping)
            || unmap_spec(m, root, va, PageSize::Kilopage).unwrap().0 == Err::<(), PageError>(
            PageError::UnmappingSizeMismatch,
        ),
{
    lemma_unmap_wf(m, root, va, PageSize::Kilopage);
}

/// The result of a run of mappings as `map_pages` states it.
pub open spec fn run_view(r: Result<Vec<PageTableEntry>, PageError>) -> Result<Seq<PageTableEntry>, PageError> {
    match r {
        Ok(v) => Ok(v@),
        Err(e) => Err(e),
    }
}

/// Maps the `n` base pages from `va` to `pa` one after the other, read and
/// write for the kernel, as `map_pages` describes; `None` when a missing
/// table needs a frame and none is left.
pub fn map_range(
    root: &mut RootTable,
    mem: &mut TableMemory,
    frames: &mut Vec<u64>,
    va: u64,
    pa: u64,
    n: u64,
    tolerate_existing: bool,
) -> (r: Option<Result<Vec<PageTableEntry>, PageError>>)
    requires
        old(mem)@.wf(),
        old(root).1.is_defined(),
        va + n * 0x1000 <= u64::MAX,
        pa + n * 0x1000 <= u64::MAX,
    ensures
        *final(root) == *old(root),
        final(mem)@.wf(),
        r is None <==> map_pages(old(mem)@, *old(root), va, pa, n as nat, tolerate_existing, seq![], old(frames)@) is None,
        r is Some ==> map_pages(old(mem)@, *old(root), va, pa, n as nat, tolerate_existing, seq![], old(frames)@)
            == Some((run_view(r.unwrap()), final(mem)@, final(frames)@)),
        r matches Some(Ok(s)) && s@.len() == 0 && final(frames)@ == old(frames)@ && pa % 4096 == 0
            && pa + n * 0x1000 <= PHYS_LIMIT && pa + n * 0x1000 + old(mem)@.hhdm <= 0x1_0000_0000_0000_0000
            ==> run_mapped_rw(final(mem)@, *old(root), va, pa, n as nat),
{
    let ghost (m0, frames0) = (mem@, frames@);
    let r = map_range_run(root, mem, frames, va, pa, n, tolerate_existing);
    proof {
        if r is Some && r.unwrap() is Ok && r.unwrap().unwrap()@.len() == 0 && frames@ == frames0 && pa % 4096 == 0
            && pa + n * 0x1000 <= PHYS_LIMIT && pa + n * 0x1000 + m0.hhdm <= 0x1_0000_0000_0000_0000 {
            lemma_map_pages_leaves(m0, *root, va, pa, n as nat, tolerate_existing, frames0);
        }
    }
    r
}

/// The loop of `map_range`.
fn map_range_run(
    root: &mut RootTable,
    mem: &mut TableMemory,
    frames: &mut Vec<u64>,
    va: u64,
    pa: u64,
    n: u64,
    tolerate_existing: bool,
) -> (r: Option<Result<Vec<PageTableEntry>, PageError>>)
    requires
        old(mem)@.wf(),
        old(root).1.is_defined(),
        va + n * 0x1000 <= u64::MAX,
        pa + n * 0x1000 <= u64::MAX,
    ensures
        *final(root) == *old(root),
        final(mem)@.wf(),
        r is None <==> map_pages(old(mem)@, *old(root), va, pa, n as nat, tolerate_existing, seq![], old(frames)@) is None,
        r is Some ==> map_pages(old(mem)@, *old(root), va, pa, n as nat, tolerate_existing, seq![], old(frames)@)
            == Some((run_view(r.unwrap()), final(mem)@, final(frames)@)),
{
    let ghost goal = map_pages(mem@, *root, va, pa, n as nat, tolerate_existing, seq![], frames@);
    let mut skipped: Vec<PageTableEntry> = Vec::new();
    let mut i: u64 = 0;
    while i < n
        invariant
            mem@.wf(),
            root.1.is_defined(),
            *root == *old(root),
            i <= n,
            va + n * 0x1000 <= u64::MAX,
            pa + n * 0x1000 <= u64::MAX,
            goal == map_pages(old(mem)@, *old(root), va, pa, n as nat, tolerate_existing, seq![], old(frames)@),
            goal == map_pages(
                mem@,
                *root,
                (va + i * 0x1000) as u64,
                (pa + i * 0x1000) as u64,
                (n - i) as nat,
                tolerate_existing,
                skipped@,
                frames@,
            ),
        decreases n - i,
    {
        let offset = i * BASE_PAGE;
        let vaddr = VirtualAddress::new(va + offset);
        let paddr = PhysicalAddress::new(pa + offset);
        let perms = PagePermissions { read: true, write: true, execute: false, user: false, global: false };
        match root.try_map(mem, frames, vaddr, paddr, perms, PageSize::Kilopage) {
            None => {
                return None;
            },
            Some(Ok(())) => {},
            Some(Err(PageError::MappingExists(e))) => {
                if tolerate_existing {
                    skipped.push(e);
                } else {
                    return Some(Err(PageError::MappingExists(e)));
                }
            },
            Some(Err(e)) => {
                return Some(Err(e));
            },
        }
        assert((va + i * 0x1000) as u64 + 0x1000 == va + (i + 1) * 0x1000);
        assert((pa + i * 0x1000) as u64 + 0x1000 == pa + (i + 1) * 0x1000);
        i = i + 1;
    }
    Some(Ok(skipped))
}

/// Unmapping the `n` base pages from `va` one after the other; the first
/// error ends the run. The result and the memory after it; `None` when a
/// walk cannot go on.
pub open spec fn unmap_pages(m: PtMem, root: RootTable, va: u64, n: nat) -> Option<(Result<(), PageError>, PtMem)>
    decreases n,
{
    if n == 0 {
        Some((Ok(()), m))
    } else {
        match unmap_spec(m, root, va, PageSize::Kilopage) {
            None => None,
            Some((Ok(()), m2)) => unmap_pages(m2, root, (va + 0x1000) as u64, (n - 1) as nat),
            Some((Err(e), m2)) => Some((Err(e), m2)),
        }
    }
}

/// Unmaps the `n` base pages from `va`, as `unmap_pages` describes; `None`
/// when a walk cannot go on.
pub fn unmap_range(root: &mut RootTable, mem: &mut TableMemory, va: u64, n: u64) -> (r: Option<Result<(), PageError>>)
    requires
        old(mem)@.wf(),
        old(root).1.is_defined(),
        va + n * 0x1000 <= u64::MAX,
    ensures
        *final(root) == *old(root),
        final(mem)@.wf(),
        r is None <==> unmap_pages(old(mem)@, *old(root), va, n as nat) is None,
        r is Some ==> unmap_pages(old(mem)@, *old(root), va, n as nat) == Some((r.unwrap(), final(mem)@)),
        r == Some(Ok::<(), PageError>(())) ==> forall|i: nat|
            i < n ==> read_walk(final(mem)@, old(root).0, old(root).1.spec_root_level(), #[trigger] nth_page(va, i))
                == Some((Entry::Invalid, 0nat)),
{
    let ghost m0 = mem@;
    let r = unmap_range_run(root, mem, va, n);
    proof {
        if r == Some(Ok::<(), PageError>(())) {
            lemma_unmap_pages_clears(m0, *root, va, n as nat);
        }
    }
    r
}

/// The loop of `unmap_range`.
fn unmap_range_run(root: &mut RootTable, mem: &mut TableMemory, va: u64, n: u64) -> (r: Option<Result<(), PageError>>)
    requires
        old(mem)@.wf(),
        old(root).1.is_defined(),
        va + n * 0x1000 <= u64::MAX,
    ensures
        *final(root) == *old(root),
        final(mem)@.wf(),
        r is None <==> unmap_pages(old(mem)@, *old(root), va, n as nat) is None,
        r is Some ==> unmap_pages(old(mem)@, *old(root), va, n as nat) == Some((r.unwrap(), final(mem)@)),
{
    let ghost goal = unmap_pages(mem@, *root, va, n as nat);
    let mut i: u64 = 0;
    while i < n
        invariant
            mem@.wf(),
            root.1.is_defined(),
            *root == *old(root),
            i <= n,
            va + n * 0x1000 <= u64::MAX,
            goal == unmap_pages(old(mem)@, *old(root), va, n as nat),
            goal == unmap_pages(mem@, *root, (va + i * 0x1000) as u64, (n - i) as nat),
        decreases n - i,
    {
        let vaddr = VirtualAddress::new(va + i * BASE_PAGE);
        let ghost before = mem@;
        match root.try_unmap(mem, vaddr, PageSize::Kilopage) {
            None => {
                return None;
            },
            Some(Ok(())) => {},
            Some(Err(e)) => {
                return Some(Err(e));
            },
        }
        proof {
            lemma_unmap_wf(before, *root, vaddr.0, PageSize::Kilopage);
        }
        assert((va + i * 0x1000) as u64 + 0x1000 == va + (i + 1) * 0x1000);
        i = i + 1;
    }
    Some(Ok(()))
}

} // verus!

verus! {

/// The number of base pages that cover `size` bytes.
pub fn page_count(size: u64) -> (r: u64)
    ensures
        r == pages_for(size),
{
    let whole = size / BASE_PAGE;
    if size % BASE_PAGE != 0 {
        whole + 1
    } else {
        whole
    }
}

/// Where a firmware region is placed: its page-aligned physical start, the
/// length that is mapped, and the length rounded up to whole pages.
#[derive(Clone, Copy, Debug, PartialEq, Eq, Structural)]
pub struct RegionLayout {
    pub physical_start: u64,
    pub size: u64,
    pub mapped_length: u64,
}

/// The layout of the region of `size` bytes at `physical_address`: the
/// address with its page offset cleared, the size grown by that page offset
/// (a region of 0x1000 bytes at 0x1001 reaches into a second page), and
/// that size rounded up to whole pages.
pub fn physical_region_layout(physical_address: u64, size: u64) -> (r: RegionLayout)
    requires
        size + physical_address % 0x1000 <= 0xffff_ffff_ffff_f000,
    ensures
        r.physical_start == physical_address - physical_address % 0x1000,
        r.size == size + physical_address % 0x1000,
        r.mapped_length == pages_for(r.size) * 0x1000,
{
    let physical_start = physical_address & 0xffff_ffff_ffff_f000;
    let offset = physical_address & 0xfff;
    assert(offset == physical_address % 0x1000 && physical_start == physical_address - offset) by (bit_vector)
        requires
            physical_start == physical_address & 0xffff_ffff_ffff_f000,
            offset == physical_address & 0xfff;
    let size = size + offset;
    let mapped_length = page_count(size) * BASE_PAGE;
    RegionLayout { physical_start, size, mapped_length }
}

/// Maps the firmware region laid out by `layout` at `vaddr`, page by page.
/// A page that is already mapped is passed over and its entry reported; any
/// other error ends the mapping. `None` when a frame is needed and none is
/// left.
pub fn map_physical_region(
    root: &mut RootTable,
    mem: &mut TableMemory,
    frames: &mut Vec<u64>,
    layout: RegionLayout,
    vaddr: u64,
) -> (r: Option<Result<Vec<PageTableEntry>, PageError>>)
    requires
        old(mem)@.wf(),
        old(root).1.is_defined(),
        vaddr + pages_for(layout.size) * 0x1000 <= u64::MAX,
        layout.physical_start + pages_for(layout.size) * 0x1000 <= u64::MAX,
    ensures
        *final(root) == *old(root),
        final(mem)@.wf(),
        r is None <==> map_pages(old(mem)@, *old(root), vaddr, layout.physical_start, pages_for(layout.size), true, seq![], old(frames)@) is None,
        r is Some ==> map_pages(old(mem)@, *old(root), vaddr, layout.physical_start, pages_for(layout.size), true, seq![], old(frames)@)
            == Some((run_view(r.unwrap()), final(mem)@, final(frames)@)),
        r matches Some(Ok(s)) && s@.len() == 0 && final(frames)@ == old(frames)@ && layout.physical_start % 4096 == 0
            && layout.physical_start + pages_for(layout.size) * 0x1000 <= PHYS_LIMIT
            && layout.physical_start + pages_for(layout.size) * 0x1000 + old(mem)@.hhdm <= 0x1_0000_0000_0000_0000
            ==> run_mapped_rw(final(mem)@, *old(root), vaddr, layout.physical_start, pages_for(layout.size)),
{
    let n = page_count(layout.size);
    map_range(root, mem, frames, vaddr, layout.physical_start, n, true)
}

} // verus!
