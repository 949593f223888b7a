use vstd::prelude::*;

mod page_table_entry;
pub use page_table_entry::{
    bit_set, lemma_new_entry_fields, spec_entry_address, spec_entry_bits, PTFlags, PageTableEntry,
    PFN_1GIB_MASK, PFN_2MIB_MASK, PFN_4KIB_MASK, PFN_MASK,
};

verus! {

/// Number of entries of a page table.
pub const MAX_ENTRIES: u64 = 512;

/// A page table of any level: 512 entries.
#[derive(Clone, Copy)]
pub struct PageTable {
    entries: [PageTableEntry; 512],
}

impl View for PageTable {
    type V = Seq<PageTableEntry>;

    closed spec fn view(&self) -> Seq<PageTableEntry> {
        self.entries@
    }
}

/// The table whose 512 entries are all zero.
pub closed spec fn spec_zero_table() -> PageTable {
    PageTable {
        entries: vstd::array::spec_array_fill_for_copy_type::<PageTableEntry, 512>(
            PageTableEntry::spec_zero(),
        ),
    }
}

/// The zero table's entries are all zero.
pub proof fn lemma_zero_table()
    ensures
        spec_zero_table()@.len() == MAX_ENTRIES,
        forall|i: int| 0 <= i < MAX_ENTRIES ==> #[trigger] spec_zero_table().entry_bits(i) == 0,
{
    PageTableEntry::lemma_spec_zero();
}

impl PageTable {
    /// The bits of entry `i`.
    pub open spec fn entry_bits(&self, i: int) -> u64 {
        self@[i]@
    }

    /// A table whose entries are all zero.
    pub fn zeroed() -> (r: Self)
        ensures
            r == spec_zero_table(),
            r@.len() == MAX_ENTRIES,
            forall|i: int| 0 <= i < MAX_ENTRIES ==> #[trigger] r.entry_bits(i) == 0,
    {
        let z = PageTableEntry::zero();
        let entries = [z; 512];
        proof {
            PageTableEntry::lemma_spec_zero();
            assert(entries =~= spec_zero_table().entries);
        }
        PageTable { entries }
    }

    /// The table with entry `i` replaced by `e`.
    pub closed spec fn spec_set(t: PageTable, i: int, e: u64) -> PageTable {
        PageTable {
            entries: vstd::array::spec_array_update(t.entries, i, PageTableEntry::spec_from_bits(e)),
        }
    }

    /// Setting an entry changes that entry alone.
    pub proof fn lemma_spec_set(t: PageTable, i: int, e: u64)
        requires
            t@.len() == MAX_ENTRIES,
            0 <= i < MAX_ENTRIES,
        ensures
            Self::spec_set(t, i, e)@.len() == MAX_ENTRIES,
            Self::spec_set(t, i, e).entry_bits(i) == e,
            forall|j: int| 0 <= j < MAX_ENTRIES && j != i ==> #[trigger] Self::spec_set(t, i, e).entry_bits(j) == t.entry_bits(j),
    {
        PageTableEntry::lemma_spec_from_bits(e);
    }

    /// Sets every entry to zero.
    pub fn zero_out(&mut self)
        ensures
            final(self)@.len() == MAX_ENTRIES,
            forall|i: int| 0 <= i < MAX_ENTRIES ==> #[trigger] final(self).entry_bits(i) == 0,
    {
        *self = PageTable::zeroed();
    }

    /// The entries, in order.
    pub fn iter(&self) -> (r: &[PageTableEntry])
        ensures
            r@ == self@,
            r@.len() == MAX_ENTRIES,
    {
        self.entries.as_slice()
    }

    pub fn get(&self, index: u64) -> (r: Option<PageTableEntry>)
        ensures
            self@.len() == MAX_ENTRIES,
            r == (if index < MAX_ENTRIES {
                Some(self@[index as int])
            } else {
                None
            }),
    {
        if index >= MAX_ENTRIES {
            None
        } else {
            Some(self.entries[index as usize])
        }
    }

    pub fn set(&mut self, index: u64, entry: PageTableEntry) -> (r: Result<(), &'static str>)
        ensures
            final(self)@.len() == MAX_ENTRIES,
            index < MAX_ENTRIES ==> *final(self) == Self::spec_set(*old(self), index as int, entry@),
            index < MAX_ENTRIES ==> r is Ok && final(self)@ == old(self)@.update(index as int, entry),
            index >= MAX_ENTRIES ==> (r matches Err(e) && e@ == "Unable to set PTE"@) && final(self)@
                == old(self)@,
    {
        if index >= MAX_ENTRIES {
            Err("Unable to set PTE")
        } else {
            proof {
                PageTableEntry::lemma_spec_from_bits(entry@);
            }
            self.entries[index as usize] = entry;
            proof {
                assert(self.entries =~= Self::spec_set(*old(self), index as int, entry@).entries);
            }
            Ok(())
        }
    }
}

#[derive(Debug, Clone, Copy, PartialEq, Eq)]
pub enum PageSize {
    FourKiB,
    TwoMiB,
    OneGiB,
}

#[derive(Debug, Clone, Copy, PartialEq, Eq)]
pub enum PageTableLevel {
    Level1,
    Level2,
    Level3,
    Level4,
}

impl PageTableLevel {
    /// The level numbered `n`, from 1 to 4.
    pub open spec fn spec_from_nat(n: nat) -> PageTableLevel {
        if n == 1 {
            PageTableLevel::Level1
        } else if n == 2 {
            PageTableLevel::Level2
        } else if n == 3 {
            PageTableLevel::Level3
        } else {
            PageTableLevel::Level4
        }
    }

    pub fn from_u8(u: u8) -> (r: Option<PageTableLevel>)
        ensures
            r == (if 1 <= u <= 4 {
                Some(PageTableLevel::spec_from_nat(u as nat))
            } else {
                None
            }),
    {
        match u {
            1 => Some(PageTableLevel::Level1),
            2 => Some(PageTableLevel::Level2),
            3 => Some(PageTableLevel::Level3),
            4 => Some(PageTableLevel::Level4),
            _ => None,
        }
    }
}

/// A read of an entry gives back what the last write to that index stored, and leaves
/// the other entries as they were.
pub proof fn lemma_set_then_get(t: PageTable, t2: PageTable, index: u64, entry: PageTableEntry, j: u64)
    requires
        t@.len() == MAX_ENTRIES,
        index < MAX_ENTRIES,
        j < MAX_ENTRIES,
        t2@ == t@.update(index as int, entry),
    ensures
        t2@[j as int] == (if j == index {
            entry
        } else {
            t@[j as int]
        }),
{
}

} // verus!
