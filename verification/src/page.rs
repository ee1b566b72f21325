//! Sv39 page tables: three levels of 512 entries each over 9+9+9+12-bit
//! virtual addresses, with 4 KiB leaves.
//!
//! A leaf either owns its frame (a user mapping) or points at memory that
//! somebody else owns (a kernel mapping: trampoline, trap frame, device).

use vstd::prelude::*;
use crate::symbols::MAXVA;
use crate::symbols::PAGE_SIZE;

verus! {

/// Entries in one table page.
pub const ENTRIES: usize = 512;

/// Entry flag: readable.
pub const ATTR_R: u64 = 2;

/// Entry flag: writable.
pub const ATTR_W: u64 = 4;

/// Entry flag: executable.
pub const ATTR_X: u64 = 8;

/// Entry flag: accessible from user mode.
pub const ATTR_U: u64 = 16;

/// Permissions of a mapping.
#[allow(non_camel_case_types)]
pub enum EntryAttributes {
    R,
    W,
    X,
    U,
    RW,
    RX,
    UR,
    URW,
    URX,
}

impl EntryAttributes {
    /// The flag bits of the permissions.
    pub open spec fn bits(self) -> u64 {
        match self {
            EntryAttributes::R => 2,
            EntryAttributes::W => 4,
            EntryAttributes::X => 8,
            EntryAttributes::U => 16,
            EntryAttributes::RW => 6,
            EntryAttributes::RX => 10,
            EntryAttributes::UR => 18,
            EntryAttributes::URW => 22,
            EntryAttributes::URX => 26,
        }
    }

    /// The flag bits of the permissions.
    pub fn val(self) -> (r: u64)
        ensures
            r == self.bits(),
    {
        match self {
            EntryAttributes::R => ATTR_R,
            EntryAttributes::W => ATTR_W,
            EntryAttributes::X => ATTR_X,
            EntryAttributes::U => ATTR_U,
            EntryAttributes::RW => ATTR_R + ATTR_W,
            EntryAttributes::RX => ATTR_R + ATTR_X,
            EntryAttributes::UR => ATTR_U + ATTR_R,
            EntryAttributes::URW => ATTR_U + ATTR_R + ATTR_W,
            EntryAttributes::URX => ATTR_U + ATTR_R + ATTR_X,
        }
    }
}

/// One frame of memory.
pub struct Page {
    pub data: [u8; PAGE_SIZE],
}

impl Page {
    /// The frame of zeroes.
    pub open spec fn zeroed() -> Page {
        Page { data: vstd::array::spec_array_fill_for_copy_type(0u8) }
    }

    /// A frame of zeroes.
    pub fn new() -> (p: Page)
        ensures
            p == Page::zeroed(),
            forall|i: int| 0 <= i < PAGE_SIZE ==> p.data@[i] == 0,
    {
        Page { data: [0u8; PAGE_SIZE] }
    }

    /// A second frame with the same content.
    pub fn duplicate(&self) -> (p: Page)
        ensures
            p == *self,
    {
        Page { data: self.data }
    }
}

/// What a leaf points at.
pub enum Frame {
    /// A frame that belongs to this page table and goes with it.
    Owned(Box<Page>),
    /// Memory at this physical address, owned elsewhere.
    Kernel(u64),
}

/// A valid leaf entry.
pub struct Leaf {
    pub frame: Frame,
    pub attrs: u64,
}

impl Leaf {
    /// A leaf for a copied table: an owned frame is duplicated, a kernel
    /// mapping points where it pointed.
    pub fn duplicate(&self) -> (l: Leaf)
        ensures
            l == *self,
    {
        match &self.frame {
            Frame::Owned(page) => Leaf {
                frame: Frame::Owned(Box::new(page.duplicate())),
                attrs: self.attrs,
            },
            Frame::Kernel(pa) => Leaf { frame: Frame::Kernel(*pa), attrs: self.attrs },
        }
    }
}

/// What unmapping the user's memory leaves of an entry: kernel mappings stay.
pub open spec fn keep_kernel(entry: Option<Leaf>) -> Option<Leaf> {
    match entry {
        Some(leaf) => if leaf.frame is Kernel {
            entry
        } else {
            None
        },
        None => None,
    }
}

/// Index into the table of level `level` (2 is the root) for `va`.
pub open spec fn vpn(va: u64, level: int) -> int {
    if level == 2 {
        (va as int / 0x4000_0000) % 512
    } else if level == 1 {
        (va as int / 0x20_0000) % 512
    } else {
        (va as int / 0x1000) % 512
    }
}

/// Two addresses lie in the same page.
pub open spec fn same_page(a: u64, b: u64) -> bool {
    a as int / 0x1000 == b as int / 0x1000
}

/// Below `MAXVA`, the three indices of an address name its page.
pub proof fn lemma_vpn_names_page(a: u64, b: u64)
    requires
        a < MAXVA,
        b < MAXVA,
    ensures
        same_page(a, b) <==> (vpn(a, 2) == vpn(b, 2) && vpn(a, 1) == vpn(b, 1) && vpn(a, 0) == vpn(
            b,
            0,
        )),
{
    assert((a / 0x1000 == b / 0x1000) <==> ((a / 0x4000_0000) % 512 == (b / 0x4000_0000) % 512 && (a
        / 0x20_0000) % 512 == (b / 0x20_0000) % 512 && (a / 0x1000) % 512 == (b / 0x1000) % 512))
        by (bit_vector)
        requires
            a < 0x40_0000_0000u64,
            b < 0x40_0000_0000u64,
    ;
}

/// The index into the table of level `level` for `va`.
pub fn vpn_index(va: u64, level: usize) -> (idx: usize)
    requires
        level <= 2,
    ensures
        idx == vpn(va, level as int),
        idx < ENTRIES,
{
    assert((va >> 30) & 0x1ff == (va / 0x4000_0000) % 512) by (bit_vector);
    assert((va >> 21) & 0x1ff == (va / 0x20_0000) % 512) by (bit_vector);
    assert((va >> 12) & 0x1ff == (va / 0x1000) % 512) by (bit_vector);
    if level == 2 {
        ((va >> 30) & 0x1ff) as usize
    } else if level == 1 {
        ((va >> 21) & 0x1ff) as usize
    } else {
        ((va >> 12) & 0x1ff) as usize
    }
}

/// A table page with every entry invalid.
fn empty_entries<T>() -> (v: Vec<Option<T>>)
    ensures
        v@.len() == ENTRIES,
        forall|i: int| 0 <= i < ENTRIES ==> v@[i] is None,
{
    let mut v: Vec<Option<T>> = Vec::new();
    let mut i: usize = 0;
    while i < ENTRIES
        invariant
            i <= ENTRIES,
            v@.len() == i,
            forall|j: int| 0 <= j < i ==> v@[j] is None,
        decreases ENTRIES - i,
    {
        v.push(None);
        i += 1;
    }
    v
}

/// A table page of the lowest level: its entries are leaves.
pub struct LeafTable {
    pub entries: Vec<Option<Leaf>>,
}

impl LeafTable {
    /// The table page has its 512 entries.
    pub open spec fn wf(&self) -> bool {
        self.entries@.len() == ENTRIES
    }

    /// A table page without mappings.
    pub fn new() -> (t: Self)
        ensures
            t.wf(),
            forall|i: int| 0 <= i < ENTRIES ==> t.entries@[i] is None,
    {
        LeafTable { entries: empty_entries() }
    }

    /// Removes the leaves that own their frame.
    pub fn unmap_user(&mut self)
        requires
            old(self).wf(),
        ensures
            final(self).wf(),
            forall|i: int|
                0 <= i < ENTRIES ==> final(self).entries@[i] == keep_kernel(old(self).entries@[i]),
    {
        let mut i: usize = 0;
        while i < ENTRIES
            invariant
                i <= ENTRIES,
                self.wf(),
                forall|j: int| 0 <= j < i ==> self.entries@[j] == keep_kernel(old(self).entries@[j]),
                forall|j: int| i <= j < ENTRIES ==> self.entries@[j] == old(self).entries@[j],
            decreases ENTRIES - i,
        {
            let owned = match &self.entries[i] {
                Some(leaf) => match &leaf.frame {
                    Frame::Owned(_) => true,
                    Frame::Kernel(_) => false,
                },
                None => false,
            };
            if owned {
                self.entries[i] = None;
            }
            i += 1;
        }
    }

    /// A copy of the table page, owned frames duplicated.
    pub fn duplicate(&self) -> (t: Self)
        requires
            self.wf(),
        ensures
            t.wf(),
            t.entries@ == self.entries@,
    {
        let mut entries: Vec<Option<Leaf>> = Vec::new();
        let mut i: usize = 0;
        while i < ENTRIES
            invariant
                i <= ENTRIES,
                self.wf(),
                entries@.len() == i,
                forall|j: int| 0 <= j < i ==> entries@[j] == self.entries@[j],
            decreases ENTRIES - i,
        {
            let entry = match &self.entries[i] {
                Some(leaf) => Some(leaf.duplicate()),
                None => None,
            };
            entries.push(entry);
            i += 1;
        }
        assert(entries@ =~= self.entries@);
        LeafTable { entries }
    }
}

/// A table page of the middle level: its entries are tables of leaves.
pub struct MidTable {
    pub entries: Vec<Option<Box<LeafTable>>>,
}

impl MidTable {
    /// The table page and those below it have their 512 entries each.
    pub open spec fn wf(&self) -> bool {
        &&& self.entries@.len() == ENTRIES
        &&& forall|i: int|
            0 <= i < ENTRIES ==> ((#[trigger] self.entries@[i]) is Some ==> self.entries@[i]->0.wf())
    }

    /// The entry that indices `i1` and `i0` lead to.
    pub open spec fn leaf(&self, i1: int, i0: int) -> Option<Leaf> {
        match self.entries@[i1] {
            Some(t) => t.entries@[i0],
            None => None,
        }
    }

    /// A table page without mappings.
    pub fn new() -> (t: Self)
        ensures
            t.wf(),
            forall|i: int| 0 <= i < ENTRIES ==> t.entries@[i] is None,
    {
        MidTable { entries: empty_entries() }
    }

    /// Writes `entry` where `i1` and `i0` lead, with a new table page where
    /// the way is not yet there.
    pub fn put(&mut self, i1: usize, i0: usize, entry: Option<Leaf>)
        requires
            old(self).wf(),
            i1 < ENTRIES,
            i0 < ENTRIES,
        ensures
            final(self).wf(),
            forall|a: int, b: int|
                0 <= a < ENTRIES && 0 <= b < ENTRIES ==> #[trigger] final(self).leaf(a, b) == (if a
                    == i1 && b == i0 {
                    entry
                } else {
                    old(self).leaf(a, b)
                }),
    {
        if self.entries[i1].is_none() {
            self.entries[i1] = Some(Box::new(LeafTable::new()));
        }
        assert(forall|a: int, b: int|
            0 <= a < ENTRIES && 0 <= b < ENTRIES ==> #[trigger] self.leaf(a, b) == old(self).leaf(
                a,
                b,
            ));
        match &mut self.entries[i1] {
            Some(t) => {
                t.entries[i0] = entry;
            },
            None => {},
        }
    }

    /// Removes the leaves that own their frame; the table pages stay.
    pub fn unmap_user(&mut self)
        requires
            old(self).wf(),
        ensures
            final(self).wf(),
            forall|a: int, b: int|
                0 <= a < ENTRIES && 0 <= b < ENTRIES ==> #[trigger] final(self).leaf(a, b)
                    == keep_kernel(old(self).leaf(a, b)),
    {
        let mut i: usize = 0;
        while i < ENTRIES
            invariant
                i <= ENTRIES,
                self.wf(),
                forall|a: int, b: int|
                    0 <= a < i && 0 <= b < ENTRIES ==> #[trigger] self.leaf(a, b) == keep_kernel(
                        old(self).leaf(a, b),
                    ),
                forall|a: int| i <= a < ENTRIES ==> self.entries@[a] == old(self).entries@[a],
            decreases ENTRIES - i,
        {
            let ghost prev = *self;
            match &mut self.entries[i] {
                Some(t) => {
                    t.unmap_user();
                },
                None => {},
            }
            assert(forall|a: int| 0 <= a < ENTRIES && a != i ==> self.entries@[a] == prev.entries@[a]);
            assert forall|a: int, b: int| 0 <= a < i + 1 && 0 <= b < ENTRIES implies #[trigger] self.leaf(
                a,
                b,
            ) == keep_kernel(old(self).leaf(a, b)) by {
                if a < i {
                    assert(self.leaf(a, b) == prev.leaf(a, b));
                }
            }
            i += 1;
        }
    }

    /// A copy of the table page and of all below it.
    pub fn duplicate(&self) -> (t: Self)
        requires
            self.wf(),
        ensures
            t.wf(),
            forall|a: int, b: int|
                0 <= a < ENTRIES && 0 <= b < ENTRIES ==> #[trigger] t.leaf(a, b) == self.leaf(a, b),
    {
        let mut entries: Vec<Option<Box<LeafTable>>> = Vec::new();
        let mut i: usize = 0;
        while i < ENTRIES
            invariant
                i <= ENTRIES,
                self.wf(),
                entries@.len() == i,
                forall|j: int|
                    0 <= j < i ==> match (#[trigger] entries@[j], self.entries@[j]) {
                        (Some(n), Some(o)) => n.wf() && n.entries@ == o.entries@,
                        (None, None) => true,
                        _ => false,
                    },
            decreases ENTRIES - i,
        {
            let entry = match &self.entries[i] {
                Some(t) => Some(Box::new(t.duplicate())),
                None => None,
            };
            entries.push(entry);
            i += 1;
        }
        MidTable { entries }
    }
}

/// The root of a page table.
pub struct Table {
    pub entries: Vec<Option<Box<MidTable>>>,
}

impl Table {
    /// Every table page has its 512 entries, and nothing is mapped from
    /// `MAXVA` on: the upper half of the root is empty.
    pub open spec fn wf(&self) -> bool {
        &&& self.entries@.len() == ENTRIES
        &&& forall|i: int|
            0 <= i < ENTRIES ==> ((#[trigger] self.entries@[i]) is Some ==> self.entries@[i]->0.wf()
                && i < ENTRIES / 2)
    }

    /// The entry that the three indices lead to.
    pub open spec fn leaf(&self, i2: int, i1: int, i0: int) -> Option<Leaf> {
        match self.entries@[i2] {
            Some(t) => t.leaf(i1, i0),
            None => None,
        }
    }

    /// The valid leaf that maps the page of `va`, if there is one.
    pub open spec fn leaf_at(&self, va: u64) -> Option<Leaf> {
        self.leaf(vpn(va, 2), vpn(va, 1), vpn(va, 0))
    }

    /// A page table without mappings.
    pub fn new() -> (t: Self)
        ensures
            t.wf(),
            forall|va: u64| t.leaf_at(va) is None,
    {
        Table { entries: empty_entries() }
    }

    fn put(&mut self, va: u64, entry: Option<Leaf>)
        requires
            old(self).wf(),
            va < MAXVA,
        ensures
            final(self).wf(),
            forall|v: u64|
                v < MAXVA ==> #[trigger] final(self).leaf_at(v) == (if same_page(v, va) {
                    entry
                } else {
                    old(self).leaf_at(v)
                }),
    {
        let i2 = vpn_index(va, 2);
        let i1 = vpn_index(va, 1);
        let i0 = vpn_index(va, 0);
        assert((va / 0x4000_0000) % 512 < 256) by (bit_vector)
            requires
                va < 0x40_0000_0000u64,
        ;
        if self.entries[i2].is_none() {
            self.entries[i2] = Some(Box::new(MidTable::new()));
        }
        assert(forall|a: int, b: int, c: int|
            0 <= a < ENTRIES && 0 <= b < ENTRIES && 0 <= c < ENTRIES ==> #[trigger] self.leaf(
                a,
                b,
                c,
            ) == old(self).leaf(a, b, c));
        match &mut self.entries[i2] {
            Some(t) => {
                t.put(i1, i0, entry);
            },
            None => {},
        }
        assert forall|v: u64| v < MAXVA implies #[trigger] self.leaf_at(v) == (if same_page(v, va) {
            entry
        } else {
            old(self).leaf_at(v)
        }) by {
            lemma_vpn_names_page(v, va);
        }
    }

    /// Maps the page of `va` to the frame `page`, which the table then owns.
    /// A mapping that was there is replaced.
    pub fn map(&mut self, va: u64, page: Page, attrs: u64)
        requires
            old(self).wf(),
            va < MAXVA,
        ensures
            final(self).wf(),
            forall|v: u64|
                v < MAXVA ==> #[trigger] final(self).leaf_at(v) == (if same_page(v, va) {
                    Some(Leaf { frame: Frame::Owned(Box::new(page)), attrs })
                } else {
                    old(self).leaf_at(v)
                }),
    {
        self.put(va, Some(Leaf { frame: Frame::Owned(Box::new(page)), attrs }));
    }

    /// Maps the page of `va` to memory at `pa` that the table does not own.
    /// A mapping that was there is replaced.
    pub fn kernel_map(&mut self, va: u64, pa: u64, attrs: u64)
        requires
            old(self).wf(),
            va < MAXVA,
        ensures
            final(self).wf(),
            forall|v: u64|
                v < MAXVA ==> #[trigger] final(self).leaf_at(v) == (if same_page(v, va) {
                    Some(Leaf { frame: Frame::Kernel(pa), attrs })
                } else {
                    old(self).leaf_at(v)
                }),
    {
        self.put(va, Some(Leaf { frame: Frame::Kernel(pa), attrs }));
    }

    /// The leaf that maps the page of `va`.
    pub fn lookup(&self, va: u64) -> (r: Option<&Leaf>)
        requires
            self.wf(),
        ensures
            match r {
                Some(leaf) => self.leaf_at(va) == Some(*leaf),
                None => self.leaf_at(va) is None,
            },
    {
        let i2 = vpn_index(va, 2);
        let i1 = vpn_index(va, 1);
        let i0 = vpn_index(va, 0);
        match &self.entries[i2] {
            Some(mid) => match &mid.entries[i1] {
                Some(low) => match &low.entries[i0] {
                    Some(leaf) => Some(leaf),
                    None => None,
                },
                None => None,
            },
            None => None,
        }
    }

    /// Removes every mapping that owns its frame, and with it the frame. The
    /// kernel mappings and the table pages stay.
    pub fn unmap_user(&mut self)
        requires
            old(self).wf(),
        ensures
            final(self).wf(),
            forall|v: u64| #[trigger] final(self).leaf_at(v) == keep_kernel(old(self).leaf_at(v)),
    {
        let mut i: usize = 0;
        while i < ENTRIES
            invariant
                i <= ENTRIES,
                self.wf(),
                forall|a: int, b: int, c: int|
                    0 <= a < i && 0 <= b < ENTRIES && 0 <= c < ENTRIES ==> #[trigger] self.leaf(
                        a,
                        b,
                        c,
                    ) == keep_kernel(old(self).leaf(a, b, c)),
                forall|a: int| i <= a < ENTRIES ==> self.entries@[a] == old(self).entries@[a],
            decreases ENTRIES - i,
        {
            let ghost prev = *self;
            match &mut self.entries[i] {
                Some(t) => {
                    t.unmap_user();
                },
                None => {},
            }
            assert(forall|a: int| 0 <= a < ENTRIES && a != i ==> self.entries@[a] == prev.entries@[a]);
            assert forall|a: int, b: int, c: int|
                0 <= a < i + 1 && 0 <= b < ENTRIES && 0 <= c < ENTRIES implies #[trigger] self.leaf(
                a,
                b,
                c,
            ) == keep_kernel(old(self).leaf(a, b, c)) by {
                if a < i {
                    assert(self.leaf(a, b, c) == prev.leaf(a, b, c));
                }
            }
            i += 1;
        }
    }

    /// A copy of the page table for a forked process: the user's frames are
    /// duplicated, the kernel mappings point where they pointed.
    pub fn duplicate(&self) -> (t: Self)
        requires
            self.wf(),
        ensures
            t.wf(),
            forall|v: u64| #[trigger] t.leaf_at(v) == self.leaf_at(v),
    {
        let mut entries: Vec<Option<Box<MidTable>>> = Vec::new();
        let mut i: usize = 0;
        while i < ENTRIES
            invariant
                i <= ENTRIES,
                self.wf(),
                entries@.len() == i,
                forall|j: int|
                    0 <= j < i ==> match (#[trigger] entries@[j], self.entries@[j]) {
                        (Some(n), Some(o)) => n.wf() && forall|a: int, b: int|
                            0 <= a < ENTRIES && 0 <= b < ENTRIES ==> #[trigger] n.leaf(a, b)
                                == o.leaf(a, b),
                        (None, None) => true,
                        _ => false,
                    },
            decreases ENTRIES - i,
        {
            let entry = match &self.entries[i] {
                Some(t) => Some(Box::new(t.duplicate())),
                None => None,
            };
            entries.push(entry);
            i += 1;
        }
        Table { entries }
    }
}

} // verus!
