//! The memory that holds the page tables, as the kernel sees it through the
//! higher-half direct map: tables of 512 entries, each at a virtual address.

use vstd::prelude::*;
use std::collections::HashMap;
use crate::pte::PageTableEntry;

verus! {

broadcast use vstd::std_specs::hash::group_hash_axioms;

/// Number of entries in one page table.
pub const TABLE_ENTRIES: usize = 512;

/// The abstract state of page-table memory: the direct-map offset, and the
/// tables known at each virtual address. A table that is not present reads
/// as all zeroes, that is, as 512 invalid entries.
pub ghost struct PtMem {
    pub hhdm: u64,
    pub tables: Map<u64, Seq<u64>>,
}

/// A table of 512 zero entries.
pub open spec fn zero_table() -> Seq<u64> {
    Seq::new(512, |i: int| 0u64)
}

impl PtMem {
    pub open spec fn wf(self) -> bool {
        forall|t: u64| #[trigger] self.tables.contains_key(t) ==> self.tables[t].len() == 512
    }

    /// The 512 entries of the table at `t`.
    pub open spec fn table(self, t: u64) -> Seq<u64> {
        if self.tables.contains_key(t) {
            self.tables[t]
        } else {
            zero_table()
        }
    }

    /// Entry `i` of the table at `t`.
    pub open spec fn entry(self, t: u64, i: int) -> u64 {
        self.table(t)[i]
    }

    /// The memory after entry `i` of the table at `t` is overwritten with `e`.
    pub open spec fn write(self, t: u64, i: int, e: u64) -> PtMem {
        PtMem { hhdm: self.hhdm, tables: self.tables.insert(t, self.table(t).update(i, e)) }
    }
}

/// A write changes the one entry it writes, and keeps the memory well formed.
pub proof fn lemma_write_entry(m: PtMem, t: u64, i: int, e: u64, t2: u64, j: int)
    requires
        m.wf(),
        0 <= i < 512,
        0 <= j < 512,
    ensures
        m.write(t, i, e).wf(),
        m.write(t, i, e).entry(t2, j) == (if t2 == t && j == i { e } else { m.entry(t2, j) }),
{
}

/// One page table: 512 raw entries.
pub struct PageTable {
    entries: Vec<u64>,
}

impl View for PageTable {
    type V = Seq<u64>;

    closed spec fn view(&self) -> Seq<u64> {
        self.entries@
    }
}

impl PageTable {
    #[verifier::type_invariant]
    spec fn inv(self) -> bool {
        self.entries@.len() == 512
    }

    /// A table of invalid entries.
    pub fn new() -> (r: Self)
        ensures
            r@ == zero_table(),
    {
        PageTable { entries: zeroed_table() }
    }

    /// The table holding `entries`.
    pub fn from_raw(entries: Vec<u64>) -> (r: Self)
        requires
            entries@.len() == 512,
        ensures
            r@ == entries@,
    {
        PageTable { entries }
    }

    /// The raw entries.
    pub fn raw(&self) -> (r: &Vec<u64>)
        ensures
            r@ == self@,
            r@.len() == 512,
    {
        proof {
            use_type_invariant(self);
        }
        &self.entries
    }

    /// Entry `index`.
    pub fn index(&self, index: usize) -> (r: PageTableEntry)
        requires
            index < 512,
        ensures
            r.0 == self@[index as int],
    {
        proof {
            use_type_invariant(self);
        }
        PageTableEntry(self.entries[index])
    }

    /// Replaces entry `index` with `e`.
    pub fn set(&mut self, index: usize, e: PageTableEntry)
        requires
            index < 512,
        ensures
            final(self)@ == old(self)@.update(index as int, e.0),
    {
        proof {
            use_type_invariant(&*self);
        }
        let mut entries = self.entries.clone();
        entries.set(index, e.0);
        self.entries = entries;
    }
}

/// Page-table memory: tables of 512 entries, keyed by virtual address.
pub struct TableMemory {
    hhdm: u64,
    tables: HashMap<u64, Vec<u64>>,
}

impl View for TableMemory {
    type V = PtMem;

    closed spec fn view(&self) -> PtMem {
        PtMem { hhdm: self.hhdm, tables: self.tables@.map_values(|v: Vec<u64>| v@) }
    }
}

fn zeroed_table() -> (r: Vec<u64>)
    ensures
        r@ == zero_table(),
{
    let mut z: Vec<u64> = Vec::new();
    let mut k: usize = 0;
    while k < TABLE_ENTRIES
        invariant
            k <= 512,
            z@ == Seq::new(k as nat, |j: int| 0u64),
        decreases 512 - k,
    {
        z.push(0);
        k += 1;
    }
    assert(z@ =~= zero_table());
    z
}

impl TableMemory {
    /// Empty page-table memory seen through the direct-map offset `hhdm`.
    pub fn new(hhdm: u64) -> (r: Self)
        ensures
            r@ == (PtMem { hhdm, tables: Map::empty() }),
            r@.wf(),
    {
        let r = TableMemory { hhdm, tables: HashMap::new() };
        assert(r@.tables =~= Map::<u64, Seq<u64>>::empty());
        r
    }

    pub fn hhdm(&self) -> (r: u64)
        ensures
            r == self@.hhdm,
    {
        self.hhdm
    }

    /// Places the table `table` at virtual address `t`.
    pub fn load_table(&mut self, t: u64, table: PageTable)
        requires
            old(self)@.wf(),
        ensures
            final(self)@ == (PtMem { hhdm: old(self)@.hhdm, tables: old(self)@.tables.insert(t, table@) }),
            final(self)@.wf(),
    {
        let entries = table.raw().clone();
        let ghost e = entries@;
        self.tables.insert(t, entries);
        assert(self@.tables =~= old(self)@.tables.insert(t, e));
    }

    /// The table at `t`.
    pub fn table(&self, t: u64) -> (r: PageTable)
        requires
            self@.wf(),
        ensures
            r@ == self@.table(t),
    {
        match self.tables.get(&t) {
            Some(v) => {
                assert(self@.tables.contains_key(t));
                PageTable::from_raw(v.clone())
            },
            None => PageTable::new(),
        }
    }

    /// Entry `i` of the table at `t`.
    pub fn read_entry(&self, t: u64, i: usize) -> (r: u64)
        requires
            self@.wf(),
            i < 512,
        ensures
            r == self@.entry(t, i as int),
    {
        match self.tables.get(&t) {
            Some(v) => {
                assert(self@.tables.contains_key(t));
                v[i]
            },
            None => 0,
        }
    }

    /// Overwrites entry `i` of the table at `t` with `e`.
    pub fn write_entry(&mut self, t: u64, i: usize, e: u64)
        requires
            old(self)@.wf(),
            i < 512,
        ensures
            final(self)@ == old(self)@.write(t, i as int, e),
            final(self)@.wf(),
    {
        let mut v = match self.tables.remove(&t) {
            Some(v) => {
                assert(old(self)@.tables.contains_key(t));
                v
            },
            None => zeroed_table(),
        };
        assert(v@ == old(self)@.table(t));
        v.set(i, e);
        self.tables.insert(t, v);
        assert(self@.tables =~= old(self)@.write(t, i as int, e).tables);
    }
}

} // verus!
