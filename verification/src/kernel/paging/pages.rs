use vstd::prelude::*;
use crate::consts::{PAGE_SIZE, USER_CODE_VIRT_START, USER_STACK_VIRT_END};
use crate::kernel::processes::process::{ProcessTable, address_is_stack_vma, in_stack_vma};
use crate::kernel::paging::frames::{PhysAddr, PfListAllocator, byte_range, first_fit};

verus! {

/// Number of entries in one page table.
pub const PAGE_TABLE_ENTRIES: usize = 512;

/// The page or table is present.
pub const PRESENT: u64 = 0x1;

/// The page is writeable.
pub const WRITEABLE: u64 = 0x2;

/// User mode may access the page.
pub const USER: u64 = 0x4;

/// Writes go through the cache.
pub const WRITE_THROUGH: u64 = 0x8;

/// The page is not cached.
pub const CACHE_DISABLE: u64 = 0x10;

/// The page was accessed.
pub const ACCESSED: u64 = 0x20;

/// The page was written.
pub const DIRTY: u64 = 0x40;

/// The entry maps a huge page.
pub const HUGE_PAGE: u64 = 0x80;

/// The mapping is global.
pub const GLOBAL: u64 = 0x100;

/// All flag bits that an entry holds.
pub const ALL_FLAGS: u64 = 0x1ff;

/// The bits of an entry that hold the physical address.
pub const ADDR_MASK: u64 = 0x000f_ffff_ffff_f000;

/// Flags of the entries of the upper three levels: present, writeable, user.
pub const DIR_FLAGS: u64 = 0x7;

/// A set of page table entry flags, as bits.
#[derive(Clone, Copy, PartialEq, Eq, Structural)]
pub struct PageFlags(u64);

impl View for PageFlags {
    type V = u64;

    closed spec fn view(&self) -> u64 {
        self.0
    }
}

impl PageFlags {
    /// The flags among `bits`; other bits are dropped.
    pub fn from_bits_truncate(bits: u64) -> (r: PageFlags)
        ensures
            r@ == bits & ALL_FLAGS,
    {
        PageFlags(bits & ALL_FLAGS)
    }

    /// The flags as bits.
    pub fn bits(&self) -> (r: u64)
        ensures
            r == self@,
    {
        self.0
    }

    /// All flags of `other` are set here.
    pub fn contains(&self, other: PageFlags) -> (r: bool)
        ensures
            r == (self@ & other@ == other@),
    {
        self.0 & other.0 == other.0
    }

    /// The flags set in either.
    pub fn union(self, other: PageFlags) -> (r: PageFlags)
        ensures
            r@ == self@ | other@,
    {
        PageFlags(self.0 | other.0)
    }

    /// Flags of kernel pages: present and writeable.
    pub fn kernel_flags() -> (r: PageFlags)
        ensures
            r@ == PRESENT | WRITEABLE,
    {
        PageFlags(PRESENT | WRITEABLE)
    }

    /// Flags of user pages: present, writeable and accessible from user mode.
    pub fn user_flags() -> (r: PageFlags)
        ensures
            r@ == PRESENT | WRITEABLE | USER,
    {
        PageFlags(PRESENT | WRITEABLE | USER)
    }
}

/// One entry of a page table: a physical address and flags in one word.
#[derive(Clone, Copy, PartialEq, Eq, Structural)]
pub struct PageTableEntry(u64);

impl View for PageTableEntry {
    type V = u64;

    closed spec fn view(&self) -> u64 {
        self.0
    }
}

/// The entry is present.
pub open spec fn is_present(e: u64) -> bool {
    e & PRESENT == PRESENT
}

impl PageTableEntry {
    /// An entry for `addr` with `flags`.
    fn new(addr: PhysAddr, flags: PageFlags) -> (r: PageTableEntry)
        ensures
            r@ == addr@ | flags@,
    {
        PageTableEntry(addr.raw() | flags.bits())
    }

    /// The empty entry.
    pub fn empty() -> (r: PageTableEntry)
        ensures
            r@ == 0,
    {
        PageTableEntry(0)
    }

    /// The entry as a word.
    pub fn raw(&self) -> (r: u64)
        ensures
            r == self@,
    {
        self.0
    }

    /// Let the entry map `addr` with `flags`.
    pub fn set(&mut self, addr: PhysAddr, flags: PageFlags)
        ensures
            final(self)@ == addr@ | flags@,
    {
        *self = PageTableEntry::new(addr, flags);
    }

    /// The flags of the entry.
    pub fn get_flags(&self) -> (r: PageFlags)
        ensures
            r@ == self@ & ALL_FLAGS,
    {
        PageFlags::from_bits_truncate(self.0)
    }

    /// Replace the flags, keeping the address.
    pub fn set_flags(&mut self, flags: PageFlags)
        ensures
            final(self)@ == (old(self)@ & ADDR_MASK) | flags@,
    {
        *self = PageTableEntry::new(self.get_addr(), flags);
    }

    /// The physical address the entry holds.
    pub fn get_addr(&self) -> (r: PhysAddr)
        ensures
            r@ == self@ & ADDR_MASK,
    {
        PhysAddr::new(self.0 & ADDR_MASK)
    }

    /// Replace the address, keeping the flags.
    pub fn set_addr(&mut self, addr: PhysAddr)
        ensures
            final(self)@ == addr@ | (old(self)@ & ALL_FLAGS),
    {
        *self = PageTableEntry::new(addr, self.get_flags());
    }

    /// The entry is present.
    pub fn present(&self) -> (r: bool)
        ensures
            r == is_present(self@),
    {
        let e = self.0;
        assert((e & 0x1ffu64) & (1u64 & 0x1ffu64) == (1u64 & 0x1ffu64) <==> e & 1u64 == 1u64)
            by (bit_vector);
        self.get_flags().contains(PageFlags::from_bits_truncate(PRESENT))
    }
}

/// Reading back an entry gives the address and the flags it was made of, for a
/// frame-aligned address below 2^52 and flags among the nine flag bits.
pub proof fn law_entry_roundtrip(addr: u64, flags: u64)
    requires
        addr & ADDR_MASK == addr,
        flags & ALL_FLAGS == flags,
    ensures
        (addr | flags) & ADDR_MASK == addr,
        (addr | flags) & ALL_FLAGS == flags,
{
    assert((addr | flags) & 0x000f_ffff_ffff_f000u64 == addr) by (bit_vector)
        requires
            addr & 0x000f_ffff_ffff_f000u64 == addr,
            flags & 0x1ffu64 == flags,
    ;
    assert((addr | flags) & 0x1ffu64 == flags) by (bit_vector)
        requires
            addr & 0x000f_ffff_ffff_f000u64 == addr,
            flags & 0x1ffu64 == flags,
    ;
}

/// Replacing the flags of an entry keeps its address, and replacing its address
/// keeps its flags.
pub proof fn law_set_flags_keeps_addr(e: u64, addr: u64, flags: u64)
    requires
        addr & ADDR_MASK == addr,
        flags & ALL_FLAGS == flags,
    ensures
        ((e & ADDR_MASK) | flags) & ADDR_MASK == e & ADDR_MASK,
        (addr | (e & ALL_FLAGS)) & ALL_FLAGS == e & ALL_FLAGS,
{
    assert(((e & 0x000f_ffff_ffff_f000u64) | flags) & 0x000f_ffff_ffff_f000u64 == e
        & 0x000f_ffff_ffff_f000u64) by (bit_vector)
        requires
            flags & 0x1ffu64 == flags,
    ;
    assert((addr | (e & 0x1ffu64)) & 0x1ffu64 == e & 0x1ffu64) by (bit_vector)
        requires
            addr & 0x000f_ffff_ffff_f000u64 == addr,
    ;
}

/// How `map` finds the frame of each page.
pub enum MapType {
    /// Each page maps to the frame at its own address.
    Identity,
    /// Each page gets a new frame from the frame allocator.
    Allocate,
    /// The pages map to consecutive frames that start at the given address.
    Contiguous(PhysAddr),
}

/// Why a mapping could not be completed.
#[derive(PartialEq, Eq, Structural, Clone, Copy, Debug)]
pub enum MapError {
    /// The frame allocator had no free frame for a table or a page.
    OutOfMemory,
}

/// Index into the table of `level` (4: PML4, 3: PDPT, 2: PD, 1: PT) for address `v`.
pub open spec fn table_index(v: u64, level: int) -> int {
    if level >= 4 {
        ((v >> 39u64) & 0x1ffu64) as int
    } else if level == 3 {
        ((v >> 30u64) & 0x1ffu64) as int
    } else if level == 2 {
        ((v >> 21u64) & 0x1ffu64) as int
    } else {
        ((v >> 12u64) & 0x1ffu64) as int
    }
}

/// `w` and `v` select the same entries in the tables of levels `1..=level`.
pub open spec fn same_slot(w: u64, v: u64, level: int) -> bool {
    &&& table_index(w, 1) == table_index(v, 1)
    &&& level >= 2 ==> table_index(w, 2) == table_index(v, 2)
    &&& level >= 3 ==> table_index(w, 3) == table_index(v, 3)
    &&& level >= 4 ==> table_index(w, 4) == table_index(v, 4)
}

/// The frame at `a` was free in `before` and is no longer free in `after`.
pub open spec fn frame_taken(a: u64, before: Set<int>, after: Set<int>) -> bool {
    &&& (a as int) % (PAGE_SIZE as int) == 0
    &&& byte_range(a as int, a + PAGE_SIZE).subset_of(before)
    &&& byte_range(a as int, a + PAGE_SIZE).disjoint(after)
}

/// No free block of the list can hold a frame any more.
pub open spec fn frames_exhausted(frames: PfListAllocator) -> bool {
    forall|k: int|
        0 <= k < frames.blocks().len() ==> (#[trigger] frames.blocks()[k]).size < PAGE_SIZE
}

fn table_index_exec(v: u64, level: u64) -> (r: usize)
    requires
        1 <= level <= 4,
    ensures
        r == table_index(v, level as int),
        r < PAGE_TABLE_ENTRIES,
{
    assert((v >> 39u64) & 0x1ffu64 < 512) by (bit_vector);
    assert((v >> 30u64) & 0x1ffu64 < 512) by (bit_vector);
    assert((v >> 21u64) & 0x1ffu64 < 512) by (bit_vector);
    assert((v >> 12u64) & 0x1ffu64 < 512) by (bit_vector);
    let idx = if level == 4 {
        (v >> 39u64) & 0x1ff
    } else if level == 3 {
        (v >> 30u64) & 0x1ff
    } else if level == 2 {
        (v >> 21u64) & 0x1ff
    } else {
        (v >> 12u64) & 0x1ff
    };
    idx as usize
}

/// A page table of one of the four levels, held in the frame `frame`; the
/// tables of the levels below hang off its present entries.
pub struct PageTable {
    frame: PhysAddr,
    entries: Vec<PageTableEntry>,
    children: Vec<Option<Box<PageTable>>>,
}

impl PageTable {
    /// The frame that holds this table.
    pub closed spec fn frame_spec(self) -> u64 {
        self.frame@
    }

    /// The tree is well formed for level `level`: 512 entries; in the upper levels
    /// an entry is present exactly where a table of the level below hangs, and
    /// then it holds that table's frame with the directory flags.
    pub closed spec fn wf_at(self, level: int) -> bool
        decreases level,
    {
        &&& self.entries@.len() == PAGE_TABLE_ENTRIES
        &&& self.children@.len() == PAGE_TABLE_ENTRIES
        &&& if level <= 1 {
            forall|i: int| 0 <= i < PAGE_TABLE_ENTRIES ==> (#[trigger] self.children@[i]) is None
        } else {
            forall|i: int|
                0 <= i < PAGE_TABLE_ENTRIES ==> match #[trigger] self.children@[i] {
                    Some(c) => {
                        &&& self.entries@[i]@ == c.frame@ | DIR_FLAGS
                        &&& c.wf_at(level - 1)
                    },
                    None => !is_present(self.entries@[i]@),
                }
        }
    }

    /// The leaf entry that the table of level `level` gives for address `v`.
    pub closed spec fn lookup(self, level: int, v: u64) -> Option<u64>
        decreases level,
    {
        let i = table_index(v, level);
        if level <= 1 {
            if 0 <= i < self.entries@.len() && is_present(self.entries@[i]@) {
                Some(self.entries@[i]@)
            } else {
                None
            }
        } else if 0 <= i < self.children@.len() {
            match self.children@[i] {
                Some(c) => c.lookup(level - 1, v),
                None => None,
            }
        } else {
            None
        }
    }

    /// The tree of a PML4 is well formed.
    pub open spec fn wf(self) -> bool {
        self.wf_at(4)
    }

    /// The leaf entry that maps virtual address `v`, if one does.
    pub open spec fn translate(self, v: u64) -> Option<u64> {
        self.lookup(4, v)
    }

    /// An empty table, held in `frame`.
    pub fn new(frame: PhysAddr) -> (r: PageTable)
        ensures
            r.frame_spec() == frame@,
            forall|level: int| 1 <= level <= 4 ==> #[trigger] r.wf_at(level),
            forall|level: int, v: u64| 1 <= level <= 4 ==> #[trigger] r.lookup(level, v) is None,
    {
        let mut entries: Vec<PageTableEntry> = Vec::new();
        let mut children: Vec<Option<Box<PageTable>>> = Vec::new();
        let mut i: usize = 0;
        while i < PAGE_TABLE_ENTRIES
            invariant
                i <= PAGE_TABLE_ENTRIES,
                entries@.len() == i,
                children@.len() == i,
                forall|j: int| 0 <= j < i ==> (#[trigger] entries@[j])@ == 0,
                forall|j: int| 0 <= j < i ==> (#[trigger] children@[j]) is None,
            decreases PAGE_TABLE_ENTRIES - i,
        {
            entries.push(PageTableEntry::empty());
            children.push(None);
            i = i + 1;
        }
        let r = PageTable { frame, entries, children };
        assert(!is_present(0u64)) by (bit_vector);
        assert forall|level: int| 1 <= level <= 4 implies #[trigger] r.wf_at(level) by {
            reveal_with_fuel(PageTable::wf_at, 1);
        }
        assert forall|level: int, v: u64| 1 <= level <= 4 implies #[trigger] r.lookup(level, v) is None by {
            let k = table_index(v, level);
            assert(0 <= k < 512) by {
                assert((v >> 39u64) & 0x1ffu64 < 512) by (bit_vector);
                assert((v >> 30u64) & 0x1ffu64 < 512) by (bit_vector);
                assert((v >> 21u64) & 0x1ffu64 < 512) by (bit_vector);
                assert((v >> 12u64) & 0x1ffu64 < 512) by (bit_vector);
            }
        }
        r
    }

    /// The frame that holds this table.
    pub fn frame(&self) -> (r: PhysAddr)
        ensures
            r@ == self.frame_spec(),
    {
        self.frame
    }

    /// Let the tree below this table of level `level` map `v` to the frame `leaf`
    /// (a new frame where `leaf` is `None`) with `flags`; missing tables of the
    /// levels in between get new frames. Returns the leaf entry written.
    fn map_page(
        &mut self,
        level: u64,
        v: u64,
        leaf: Option<PhysAddr>,
        flags: PageFlags,
        frames: &mut PfListAllocator,
    ) -> (r: Result<u64, MapError>)
        requires
            1 <= level <= 4,
            old(self).wf_at(level as int),
            old(frames).wf(),
            is_present(flags@),
        ensures
            final(self).wf_at(level as int),
            final(self).frame_spec() == old(self).frame_spec(),
            final(frames).wf(),
            final(frames).max_phys() == old(frames).max_phys(),
            final(frames).free_set().subset_of(old(frames).free_set()),
            forall|w: u64|
                !same_slot(w, v, level as int) ==> #[trigger] final(self).lookup(level as int, w)
                    == old(self).lookup(level as int, w),
            match r {
                Ok(e) => {
                    &&& final(self).lookup(level as int, v) == Some(e)
                    &&& match leaf {
                        Some(a) => e == a@ | flags@,
                        None => exists|a: u64|
                            e == a | flags@ && frame_taken(
                                a,
                                old(frames).free_set(),
                                final(frames).free_set(),
                            ),
                    }
                },
                Err(_) => frames_exhausted(*final(frames)),
            },
        decreases level,
    {
        let i = table_index_exec(v, level);
        if level == 1 {
            let addr = match leaf {
                Some(a) => a,
                None => match frames.alloc_block(1) {
                    Some(a) => a,
                    None => {
                        return Err(MapError::OutOfMemory);
                    },
                },
            };
            let entry = PageTableEntry::new(addr, flags);
            let e = entry.raw();
            let ghost av: u64 = addr@;
            let ghost fv: u64 = flags@;
            assert(is_present(av | fv)) by (bit_vector)
                requires
                    is_present(fv),
            ;
            self.entries.set(i, entry);
            assert forall|w: u64| !same_slot(w, v, 1) implies #[trigger] self.lookup(1, w) == old(self).lookup(1, w) by {}
            assert(self.lookup(1, v) == Some(e));
            if leaf.is_none() {
                assert(byte_range(addr@ as int, addr@ + PAGE_SIZE).disjoint(frames.free_set()));
                assert(frame_taken(addr@, old(frames).free_set(), frames.free_set()));
            }
            return Ok(e);
        }
        let ghost old_frames = *frames;
        let was_present = self.entries[i].present();
        if !was_present {
            match frames.alloc_block(1) {
                None => {
                    return Err(MapError::OutOfMemory);
                },
                Some(frame) => {
                    let child = PageTable::new(frame);
                    assert(child.wf_at(level - 1));
                    self.entries.set(i, PageTableEntry::new(frame, PageFlags(DIR_FLAGS)));
                    self.children.set(i, Some(Box::new(child)));
                    assert forall|w: u64| #[trigger] self.lookup(level as int, w) == (if table_index(
                        w,
                        level as int,
                    ) == i {
                        None
                    } else {
                        old(self).lookup(level as int, w)
                    }) by {
                        assert(child.lookup(level - 1, w) is None);
                    }
                },
            }
        }
        let ghost mid = *self;
        let ghost mid_frames = *frames;
        assert(mid_frames.free_set().subset_of(old(frames).free_set()));
        assert(mid.wf_at(level as int));
        assert forall|j: int| 0 <= j < PAGE_TABLE_ENTRIES && j != i implies #[trigger] mid.children@[j]
            == old(self).children@[j] by {}
        assert(mid.children@[i as int] is Some);
        assert(old(self).children@[i as int] is None ==> forall|w: u64|
            #[trigger] mid.lookup(level as int, w) == (if table_index(w, level as int) == i {
                None
            } else {
                old(self).lookup(level as int, w)
            }));
        let mut slot: Option<Box<PageTable>> = None;
        core::mem::swap(&mut slot, &mut self.children[i]);
        let mut child = slot.unwrap();
        let ghost child_old = *child;
        let r = child.map_page(level - 1, v, leaf, flags, frames);
        self.children.set(i, Some(child));
        proof {
            assert(self.entries@ == mid.entries@);
            assert(self.children@ == mid.children@.update(i as int, Some(child)));
            assert forall|j: int| 0 <= j < PAGE_TABLE_ENTRIES implies match #[trigger] self.children@[j] {
                Some(c) => {
                    &&& self.entries@[j]@ == c.frame@ | DIR_FLAGS
                    &&& c.wf_at(level - 1)
                },
                None => !is_present(self.entries@[j]@),
            } by {}
            assert forall|w: u64| !same_slot(w, v, level as int) implies #[trigger] self.lookup(level as int, w)
                == old(self).lookup(level as int, w) by {
                if table_index(w, level as int) == i {
                    assert(!same_slot(w, v, level - 1));
                    assert(self.lookup(level as int, w) == child.lookup(level - 1, w));
                    assert(mid.lookup(level as int, w) == child_old.lookup(level - 1, w));
                } else {
                    assert(self.lookup(level as int, w) == mid.lookup(level as int, w));
                }
                if old(self).children@[i as int] is Some {
                    let ghost fr = old(self).children@[i as int].unwrap().frame@;
                    assert(is_present(fr | DIR_FLAGS)) by (bit_vector);
                    assert(was_present);
                    assert(mid == *old(self));
                } else {
                    assert(old(self).lookup(level as int, w) == (if table_index(w, level as int) == i {
                        None
                    } else {
                        old(self).lookup(level as int, w)
                    }));
                }
                assert(mid.lookup(level as int, w) == old(self).lookup(level as int, w));
            }
            if let Ok(e) = r {
                assert(self.lookup(level as int, v) == child.lookup(level - 1, v));
                if leaf.is_none() {
                    let a = choose|a: u64|
                        e == a | flags@ && frame_taken(a, mid_frames.free_set(), frames.free_set());
                    assert(frame_taken(a, old(frames).free_set(), frames.free_set()));
                }
            }
        }
        r
    }
}

/// Address of page `i` of the run of pages that starts at `virt_addr`.
pub open spec fn page_addr(virt_addr: u64, i: int) -> int {
    virt_addr + i * PAGE_SIZE
}

/// Pages mapped by a run of `num_pages` pages from `virt_addr`: all but the page
/// at address 0, which stays unmapped.
pub open spec fn mapped_count(virt_addr: u64, num_pages: int) -> int {
    if virt_addr == 0 && num_pages > 0 {
        num_pages - 1
    } else {
        num_pages
    }
}

proof fn lemma_same_slot_bits(x: u64, y: u64)
    ensures
        same_slot(x, y, 4) <==> (x >> 12u64) & 0xf_ffff_ffffu64 == (y >> 12u64) & 0xf_ffff_ffffu64,
{
    assert((((x >> 39u64) & 0x1ffu64) == ((y >> 39u64) & 0x1ffu64) && ((x >> 30u64) & 0x1ffu64) == ((
    y >> 30u64) & 0x1ffu64) && ((x >> 21u64) & 0x1ffu64) == ((y >> 21u64) & 0x1ffu64) && ((x
        >> 12u64) & 0x1ffu64) == ((y >> 12u64) & 0x1ffu64)) <==> ((x >> 12u64) & 0xf_ffff_ffffu64 == (y
        >> 12u64) & 0xf_ffff_ffffu64)) by (bit_vector);
}

/// Two different pages of a run shorter than 2^36 pages use different entries.
proof fn lemma_pages_distinct(base: u64, i: int, j: int)
    requires
        0 <= i < j,
        base + j * PAGE_SIZE <= u64::MAX,
        j - i < 0x10_0000_0000,
    ensures
        !same_slot(page_addr(base, i) as u64, page_addr(base, j) as u64, 4),
{
    let x: u64 = page_addr(base, i) as u64;
    let y: u64 = page_addr(base, j) as u64;
    lemma_same_slot_bits(x, y);
    assert(x >> 12u64 == x / 4096) by (bit_vector);
    assert(y >> 12u64 == y / 4096) by (bit_vector);
    assert((x / 4096) & 0xf_ffff_ffffu64 == (x / 4096) % 0x10_0000_0000) by (bit_vector);
    assert((y / 4096) & 0xf_ffff_ffffu64 == (y / 4096) % 0x10_0000_0000) by (bit_vector);
    assert(x / 4096 == base / 4096 + i) by (nonlinear_arith)
        requires
            x == base + i * 4096,
            0 <= i,
    ;
    assert(y / 4096 == base / 4096 + j) by (nonlinear_arith)
        requires
            y == base + j * 4096,
            0 <= j,
    ;
    let q: int = base as int / 4096;
    assert((q + i) % 0x10_0000_0000 != (q + j) % 0x10_0000_0000) by (nonlinear_arith)
        requires
            0 <= q,
            0 <= i < j,
            j - i < 0x10_0000_0000,
    ;
}

/// Flags of the pages that `map` maps: kernel or user pages.
pub open spec fn target_flags(kernel: bool) -> u64 {
    if kernel {
        PRESENT | WRITEABLE
    } else {
        PRESENT | WRITEABLE | USER
    }
}

impl PageTable {
    /// Page `i` of the run from `virt_addr` is mapped as `map_type` asks, with `flags`;
    /// a newly allocated frame was free in `before` and is not in `after`.
    pub open spec fn leaf_ok(
        self,
        map_type: MapType,
        virt_addr: u64,
        i: int,
        flags: u64,
        before: Set<int>,
        after: Set<int>,
    ) -> bool {
        let v = page_addr(virt_addr, i) as u64;
        match map_type {
            MapType::Identity => self.translate(v) == Some(v | flags),
            MapType::Contiguous(b) => self.translate(v) == Some((page_addr(b@, i) as u64) | flags),
            MapType::Allocate => exists|a: u64|
                self.translate(v) == Some(a | flags) && frame_taken(a, before, after),
        }
    }

    /// Map the `num_pages` pages from `virt_addr` as `map_type` says, as kernel or
    /// user pages; missing tables get new frames. The page at address 0 stays
    /// unmapped. Returns the number of pages mapped, or the error when the frame
    /// allocator runs out of frames.
    pub fn map(
        &mut self,
        frames: &mut PfListAllocator,
        virt_addr: u64,
        num_pages: usize,
        map_type: MapType,
        kernel: bool,
    ) -> (r: Result<usize, MapError>)
        requires
            old(self).wf(),
            old(frames).wf(),
            num_pages <= 0x10_0000_0000,
            num_pages > 0 ==> (num_pages - 1) * PAGE_SIZE <= usize::MAX,
            num_pages > 0 ==> virt_addr + (num_pages - 1) * PAGE_SIZE <= u64::MAX,
            num_pages > 0 ==> (map_type matches MapType::Contiguous(b) ==> b@ + (num_pages - 1)
                * PAGE_SIZE <= u64::MAX),
        ensures
            final(self).wf(),
            final(self).frame_spec() == old(self).frame_spec(),
            final(frames).wf(),
            final(frames).max_phys() == old(frames).max_phys(),
            final(frames).free_set().subset_of(old(frames).free_set()),
            forall|w: u64|
                (forall|i: int|
                    0 <= i < num_pages && page_addr(virt_addr, i) != 0 ==> !#[trigger] same_slot(
                        w,
                        page_addr(virt_addr, i) as u64,
                        4,
                    )) ==> #[trigger] final(self).translate(w) == old(self).translate(w),
            low_page_kept(virt_addr, num_pages as int) ==> forall|w: u64|
                w < PAGE_SIZE ==> #[trigger] final(self).translate(w) == old(self).translate(w),
            match r {
                Ok(n) => {
                    &&& n == mapped_count(virt_addr, num_pages as int)
                    &&& forall|i: int|
                        0 <= i < num_pages && page_addr(virt_addr, i) != 0 ==> #[trigger] final(self).leaf_ok(
                            map_type,
                            virt_addr,
                            i,
                            target_flags(kernel),
                            old(frames).free_set(),
                            final(frames).free_set(),
                        )
                },
                Err(_) => frames_exhausted(*final(frames)),
            },
    {
        let flags = if kernel {
            PageFlags::kernel_flags()
        } else {
            PageFlags::user_flags()
        };
        assert(is_present(PRESENT | WRITEABLE)) by (bit_vector);
        assert(is_present(PRESENT | WRITEABLE | USER)) by (bit_vector);
        let ghost free0 = old(frames).free_set();
        let mut mapped: usize = 0;
        let mut i: usize = 0;
        while i < num_pages
            invariant
                self.wf(),
                self.frame_spec() == old(self).frame_spec(),
                frames.wf(),
                frames.max_phys() == old(frames).max_phys(),
                frames.free_set().subset_of(free0),
                free0 == old(frames).free_set(),
                0 <= i <= num_pages,
                mapped == mapped_count(virt_addr, i as int),
                flags@ == target_flags(kernel),
                is_present(flags@),
                num_pages <= 0x10_0000_0000,
                num_pages > 0 ==> (num_pages - 1) * PAGE_SIZE <= usize::MAX,
                num_pages > 0 ==> virt_addr + (num_pages - 1) * PAGE_SIZE <= u64::MAX,
                num_pages > 0 ==> (map_type matches MapType::Contiguous(b) ==> b@ + (num_pages - 1)
                    * PAGE_SIZE <= u64::MAX),
                forall|w: u64|
                    (forall|k: int|
                        0 <= k < i && page_addr(virt_addr, k) != 0 ==> !#[trigger] same_slot(
                            w,
                            page_addr(virt_addr, k) as u64,
                            4,
                        )) ==> #[trigger] self.translate(w) == old(self).translate(w),
                forall|k: int|
                    0 <= k < i && page_addr(virt_addr, k) != 0 ==> #[trigger] self.leaf_ok(
                        map_type,
                        virt_addr,
                        k,
                        flags@,
                        free0,
                        frames.free_set(),
                    ),
            decreases num_pages - i,
        {
            proof {
                assert(i * PAGE_SIZE <= (num_pages - 1) * PAGE_SIZE) by (nonlinear_arith)
                    requires
                        i < num_pages,
                ;
            }
            let offset = i * PAGE_SIZE;
            let v_addr = virt_addr + offset as u64;
            if v_addr == 0 {
                i = i + 1;
                continue;
            }
            assert(v_addr == page_addr(virt_addr, i as int) as u64);
            let leaf = match &map_type {
                MapType::Identity => Some(PhysAddr::new(v_addr)),
                MapType::Allocate => None,
                MapType::Contiguous(base) => Some(PhysAddr::new(base.raw() + offset as u64)),
            };
            let ghost before = *self;
            let ghost free_before = frames.free_set();
            let res = self.map_page(4, v_addr, leaf, flags, frames);
            match res {
                Err(e) => {
                    proof {
                        assert forall|w: u64|
                            (forall|k: int|
                                0 <= k < num_pages && page_addr(virt_addr, k) != 0 ==> !#[trigger] same_slot(
                                    w,
                                    page_addr(virt_addr, k) as u64,
                                    4,
                                )) implies #[trigger] self.translate(w) == old(self).translate(w) by {
                            assert(!same_slot(w, page_addr(virt_addr, i as int) as u64, 4));
                            assert(forall|k: int|
                                0 <= k < i && page_addr(virt_addr, k) != 0 ==> !#[trigger] same_slot(
                                    w,
                                    page_addr(virt_addr, k) as u64,
                                    4,
                                ));
                            assert(before.translate(w) == old(self).translate(w));
                        }
                        lemma_low_page_kept(*old(self), *self, virt_addr, num_pages as int);
                    }
                    return Err(e);
                },
                Ok(e) => {
                    proof {
                        assert(self.translate(v_addr) == Some(e));
                        match map_type {
                            MapType::Contiguous(b) => {
                                assert(e == (page_addr(b@, i as int) as u64) | flags@);
                            },
                            MapType::Allocate => {
                                let a = choose|a: u64|
                                    e == a | flags@ && frame_taken(a, free_before, frames.free_set());
                                assert(frame_taken(a, free0, frames.free_set()));
                            },
                            MapType::Identity => {},
                        }
                    }
                },
            }
            proof {
                assert forall|k: int|
                    0 <= k < i && page_addr(virt_addr, k) != 0 implies #[trigger] self.leaf_ok(
                    map_type,
                    virt_addr,
                    k,
                    flags@,
                    free0,
                    frames.free_set(),
                ) by {
                    lemma_pages_distinct(virt_addr, k, i as int);
                    let vk = page_addr(virt_addr, k) as u64;
                    assert(!same_slot(vk, v_addr, 4));
                    assert(self.translate(vk) == before.translate(vk));
                    assert(before.leaf_ok(map_type, virt_addr, k, flags@, free0, free_before));
                    if map_type is Allocate {
                        let a = choose|a: u64|
                            before.translate(vk) == Some(a | flags@) && frame_taken(a, free0, free_before);
                        assert(frame_taken(a, free0, frames.free_set()));
                    }
                }
                assert(self.leaf_ok(map_type, virt_addr, i as int, flags@, free0, frames.free_set()));
                assert forall|w: u64|
                    (forall|k: int|
                        0 <= k < i + 1 && page_addr(virt_addr, k) != 0 ==> !#[trigger] same_slot(
                            w,
                            page_addr(virt_addr, k) as u64,
                            4,
                        )) implies #[trigger] self.translate(w) == old(self).translate(w) by {
                    assert(!same_slot(w, page_addr(virt_addr, i as int) as u64, 4));
                    assert(forall|k: int|
                        0 <= k < i && page_addr(virt_addr, k) != 0 ==> !#[trigger] same_slot(
                            w,
                            page_addr(virt_addr, k) as u64,
                            4,
                        ));
                    assert(before.translate(w) == old(self).translate(w));
                }
            }
            mapped = mapped + 1;
            i = i + 1;
        }
        proof {
            lemma_low_page_kept(*old(self), *self, virt_addr, num_pages as int);
        }
        Ok(mapped)
    }
}

/// The run of `num_pages` pages from `virt_addr` starts on a page boundary and
/// lies below 2^48, the end of what four table levels translate.
pub open spec fn low_page_kept(virt_addr: u64, num_pages: int) -> bool {
    &&& virt_addr % (PAGE_SIZE as u64) == 0
    &&& virt_addr + num_pages * PAGE_SIZE <= 0x1_0000_0000_0000
}

/// A page-aligned address other than 0 below 2^48 is not translated by the slot
/// of page 0.
proof fn lemma_not_low_slot(w: u64, p: u64)
    requires
        w < PAGE_SIZE,
        p % (PAGE_SIZE as u64) == 0,
        0 < p < 0x1_0000_0000_0000,
    ensures
        !same_slot(w, p, 4),
{
    assert(p >= 4096) by (nonlinear_arith)
        requires
            p % 4096 == 0,
            p > 0,
    ;
    assert(p >= 4096 && w < 4096 && p < 0x1_0000_0000_0000 ==> ((w >> 12u64) & 0x1ffu64) != ((p >> 12u64)
        & 0x1ffu64) || ((w >> 21u64) & 0x1ffu64) != ((p >> 21u64) & 0x1ffu64) || ((w >> 30u64) & 0x1ffu64)
        != ((p >> 30u64) & 0x1ffu64) || ((w >> 39u64) & 0x1ffu64) != ((p >> 39u64) & 0x1ffu64))
        by (bit_vector);
}

/// Where a mapping kept every address off the slots of the pages it mapped (page
/// 0 is never mapped), an aligned run below 2^48 leaves page 0 as it was.
proof fn lemma_low_page_kept(t0: PageTable, t1: PageTable, virt_addr: u64, num_pages: int)
    requires
        forall|w: u64|
            (forall|k: int|
                0 <= k < num_pages && page_addr(virt_addr, k) != 0 ==> !#[trigger] same_slot(
                    w,
                    page_addr(virt_addr, k) as u64,
                    4,
                )) ==> #[trigger] t1.translate(w) == t0.translate(w),
    ensures
        low_page_kept(virt_addr, num_pages) ==> forall|w: u64|
            w < PAGE_SIZE ==> #[trigger] t1.translate(w) == t0.translate(w),
{
    if low_page_kept(virt_addr, num_pages) {
        assert forall|w: u64| w < PAGE_SIZE implies #[trigger] t1.translate(w) == t0.translate(w) by {
            assert forall|k: int| 0 <= k < num_pages && page_addr(virt_addr, k) != 0 implies !#[trigger] same_slot(
                w,
                page_addr(virt_addr, k) as u64,
                4,
            ) by {
                let p = page_addr(virt_addr, k);
                assert(p < 0x1_0000_0000_0000) by (nonlinear_arith)
                    requires
                        p == virt_addr + k * 4096,
                        k < num_pages,
                        virt_addr + num_pages * 4096 <= 0x1_0000_0000_0000,
                ;
                assert(p % 4096 == 0) by (nonlinear_arith)
                    requires
                        p == virt_addr + k * 4096,
                        virt_addr % 4096 == 0,
                        k >= 0,
                ;
                lemma_not_low_slot(w, p as u64);
            }
        }
    }
}

/// Pages needed for `bytes` bytes.
pub open spec fn pages_for(bytes: int) -> int {
    (bytes + PAGE_SIZE - 1) / (PAGE_SIZE as int)
}

/// Pages needed for `bytes` bytes, rounded up.
pub fn pages_for_bytes(bytes: usize) -> (r: usize)
    requires
        bytes + PAGE_SIZE <= usize::MAX,
    ensures
        r == pages_for(bytes as int),
        r * PAGE_SIZE <= bytes + PAGE_SIZE - 1,
{
    let r = (bytes + PAGE_SIZE - 1) / PAGE_SIZE;
    assert(r * 4096 <= bytes + 4095) by (nonlinear_arith)
        requires
            r == (bytes + 4095) / 4096,
    ;
    r
}

/// Map the page at `top_page_addr` as a new user stack page; returns the end of
/// the user stack.
pub fn map_user_stack(pml4_table: &mut PageTable, frames: &mut PfListAllocator, top_page_addr: u64) -> (r: Result<u64, MapError>)
    requires
        old(pml4_table).wf(),
        old(frames).wf(),
    ensures
        final(pml4_table).wf(),
        final(pml4_table).frame_spec() == old(pml4_table).frame_spec(),
        final(frames).wf(),
        final(frames).free_set().subset_of(old(frames).free_set()),
        forall|w: u64|
            !same_slot(w, top_page_addr, 4) ==> #[trigger] final(pml4_table).translate(w) == old(pml4_table).translate(w),
        match r {
            Ok(end) => end == USER_STACK_VIRT_END && (top_page_addr != 0 ==> final(pml4_table).leaf_ok(
                MapType::Allocate,
                top_page_addr,
                0,
                target_flags(false),
                old(frames).free_set(),
                final(frames).free_set(),
            )),
            Err(_) => frames_exhausted(*final(frames)),
        },
{
    let res = pml4_table.map(frames, top_page_addr, 1, MapType::Allocate, false);
    proof {
        assert forall|w: u64| !same_slot(w, top_page_addr, 4) implies #[trigger] pml4_table.translate(w)
            == old(pml4_table).translate(w) by {
            assert(page_addr(top_page_addr, 0) == top_page_addr);
        }
        if res is Ok && top_page_addr != 0 {
            assert(page_addr(top_page_addr, 0) != 0);
        }
    }
    match res {
        Ok(_) => Ok(USER_STACK_VIRT_END),
        Err(e) => Err(e),
    }
}

/// Map new user pages for a heap of `user_heap_size` bytes from `user_heap_start`.
pub fn map_user_heap(
    pml4_table: &mut PageTable,
    frames: &mut PfListAllocator,
    user_heap_start: u64,
    user_heap_size: usize,
) -> (r: Result<(), MapError>)
    requires
        old(pml4_table).wf(),
        old(frames).wf(),
        user_heap_size + PAGE_SIZE <= usize::MAX,
        user_heap_size <= 0x1_0000_0000_0000,
        pages_for(user_heap_size as int) > 0 ==> user_heap_start + (pages_for(user_heap_size as int)
            - 1) * PAGE_SIZE <= u64::MAX,
    ensures
        final(pml4_table).wf(),
        final(pml4_table).frame_spec() == old(pml4_table).frame_spec(),
        final(frames).wf(),
        final(frames).free_set().subset_of(old(frames).free_set()),
        forall|w: u64|
            (forall|i: int|
                0 <= i < pages_for(user_heap_size as int) ==> !#[trigger] same_slot(
                    w,
                    page_addr(user_heap_start, i) as u64,
                    4,
                )) ==> #[trigger] final(pml4_table).translate(w) == old(pml4_table).translate(w),
        match r {
            Ok(_) => forall|i: int|
                0 <= i < pages_for(user_heap_size as int) && page_addr(user_heap_start, i) != 0
                    ==> #[trigger] final(pml4_table).leaf_ok(
                    MapType::Allocate,
                    user_heap_start,
                    i,
                    target_flags(false),
                    old(frames).free_set(),
                    final(frames).free_set(),
                ),
            Err(_) => frames_exhausted(*final(frames)),
        },
{
    let num_pages = pages_for_bytes(user_heap_size);
    assert(num_pages <= 0x10_0000_0000) by (nonlinear_arith)
        requires
            num_pages == (user_heap_size + 4095) / 4096,
            user_heap_size <= 0x1_0000_0000_0000,
    ;
    match pml4_table.map(frames, user_heap_start, num_pages, MapType::Allocate, false) {
        Ok(_) => Ok(()),
        Err(e) => Err(e),
    }
}

/// Take frames for a program of `data_len` bytes and map them, one after the
/// other, as user pages from `USER_CODE_VIRT_START`. Returns the first frame,
/// where the program's bytes are to be copied.
pub fn map_user_app(pml4: &mut PageTable, frames: &mut PfListAllocator, data_len: usize) -> (r: Result<PhysAddr, MapError>)
    requires
        old(pml4).wf(),
        old(frames).wf(),
        data_len > 0,
        data_len + PAGE_SIZE <= usize::MAX,
        data_len <= 0x1_0000_0000_0000,
    ensures
        final(pml4).wf(),
        final(pml4).frame_spec() == old(pml4).frame_spec(),
        final(frames).wf(),
        final(frames).free_set().subset_of(old(frames).free_set()),
        match r {
            Ok(phys) => {
                &&& byte_range(phys@ as int, phys@ + pages_for(data_len as int) * PAGE_SIZE).subset_of(
                    old(frames).free_set(),
                )
                &&& byte_range(phys@ as int, phys@ + pages_for(data_len as int) * PAGE_SIZE).disjoint(
                    final(frames).free_set(),
                )
                &&& forall|i: int|
                    0 <= i < pages_for(data_len as int) ==> #[trigger] final(pml4).leaf_ok(
                        MapType::Contiguous(phys),
                        USER_CODE_VIRT_START,
                        i,
                        target_flags(false),
                        old(frames).free_set(),
                        final(frames).free_set(),
                    )
            },
            Err(_) => frames_exhausted(*final(frames)) || forall|k: int|
                0 <= k < old(frames).blocks().len() ==> (#[trigger] old(frames).blocks()[k]).size
                    < pages_for(data_len as int) * PAGE_SIZE,
        },
{
    let num_pages = pages_for_bytes(data_len);
    assert(num_pages > 0) by (nonlinear_arith)
        requires
            num_pages == (data_len + 4095) / 4096,
            data_len > 0,
    ;
    let ghost free0 = frames.free_set();
    let phys_addr = match frames.alloc_block(num_pages) {
        Some(a) => a,
        None => {
            return Err(MapError::OutOfMemory);
        },
    };
    proof {
        assert(byte_range(phys_addr@ as int, phys_addr@ + num_pages * PAGE_SIZE).disjoint(frames.free_set()));
    }
    let ghost free1 = frames.free_set();
    assert(num_pages <= 0x10_0000_0000) by (nonlinear_arith)
        requires
            num_pages == (data_len + 4095) / 4096,
            data_len <= 0x1_0000_0000_0000,
    ;
    proof {
        let k = choose|k: int|
            first_fit(old(frames).blocks(), num_pages * PAGE_SIZE, k) && phys_addr@ == (
            #[trigger] old(frames).blocks()[k]).start;
        assert(old(frames).blocks()[k].end() <= usize::MAX);
    }
    match pml4.map(frames, USER_CODE_VIRT_START, num_pages, MapType::Contiguous(phys_addr), false) {
        Ok(_) => {
            proof {
                assert(page_addr(USER_CODE_VIRT_START, 0) != 0);
                assert forall|i: int|
                    0 <= i < pages_for(data_len as int) implies #[trigger] pml4.leaf_ok(
                    MapType::Contiguous(phys_addr),
                    USER_CODE_VIRT_START,
                    i,
                    target_flags(false),
                    free0,
                    frames.free_set(),
                ) by {
                    assert(page_addr(USER_CODE_VIRT_START, i) != 0);
                    assert(pml4.leaf_ok(
                        MapType::Contiguous(phys_addr),
                        USER_CODE_VIRT_START,
                        i,
                        target_flags(false),
                        free1,
                        frames.free_set(),
                    ));
                }
            }
            Ok(phys_addr)
        },
        Err(e) => Err(e),
    }
}

/// A page fault at `virt_addr` in process `pid` that lies in a stack area of the
/// process grows the stack: the page that holds the address gets a new frame.
/// Returns whether it did; an error where no frame is left.
pub fn check_and_grow_user_stack(
    processes: &ProcessTable,
    pid: usize,
    pml4: &mut PageTable,
    frames: &mut PfListAllocator,
    virt_addr: u64,
) -> (r: Result<bool, MapError>)
    requires
        old(pml4).wf(),
        old(frames).wf(),
    ensures
        final(pml4).wf(),
        final(frames).wf(),
        final(frames).free_set().subset_of(old(frames).free_set()),
        ({
            let grow = processes.view().contains_key(pid) && in_stack_vma(
                processes.view()[pid].vmas_spec(),
                virt_addr as int,
            );
            let page = (virt_addr - virt_addr as int % (PAGE_SIZE as int)) as u64;
            &&& !grow ==> r == Ok::<bool, MapError>(false) && *final(pml4) == *old(pml4) && *final(frames) == *old(frames)
            &&& grow ==> match r {
                Ok(b) => b && (page != 0 ==> final(pml4).leaf_ok(
                    MapType::Allocate,
                    page,
                    0,
                    target_flags(false),
                    old(frames).free_set(),
                    final(frames).free_set(),
                )),
                Err(_) => frames_exhausted(*final(frames)),
            }
        }),
{
    if address_is_stack_vma(processes, pid, virt_addr) {
        let page_to_map = virt_addr & !4095u64;
        assert(virt_addr & !4095u64 == virt_addr - virt_addr % 4096) by (bit_vector);
        let res = pml4.map(frames, page_to_map, 1, MapType::Allocate, false);
        proof {
            if res is Ok && page_to_map != 0 {
                assert(page_addr(page_to_map, 0) != 0);
            }
        }
        match res {
            Ok(_) => Ok(true),
            Err(e) => Err(e),
        }
    } else {
        Ok(false)
    }
}

/// Build the kernel's page tables in a new frame: all physical memory that the
/// frame allocator was given is mapped 1:1 as kernel pages, and so is the
/// framebuffer at `framebuffer` (its address, bytes per line and lines), if any.
pub fn init_kernel_tables(
    frames: &mut PfListAllocator,
    framebuffer: Option<(u64, u32, u32)>,
) -> (r: Result<PageTable, MapError>)
    requires
        old(frames).wf(),
        old(frames).max_phys() + PAGE_SIZE <= usize::MAX,
        old(frames).max_phys() <= 0x1_0000_0000_0000,
        framebuffer matches Some(fb) ==> {
            &&& fb.1 * fb.2 <= u32::MAX
            &&& fb.1 * fb.2 + PAGE_SIZE <= usize::MAX
            &&& pages_for(fb.1 * fb.2) > 0 ==> fb.0 + (pages_for(fb.1 * fb.2) - 1) * PAGE_SIZE
                <= u64::MAX
        },
    ensures
        final(frames).wf(),
        final(frames).free_set().subset_of(old(frames).free_set()),
        match r {
            Ok(t) => {
                let kernel_pages = pages_for(old(frames).max_phys() as int);
                &&& t.wf()
                &&& frame_taken(t.frame_spec(), old(frames).free_set(), final(frames).free_set())
                &&& forall|i: int|
                    0 < i < kernel_pages && !(framebuffer matches Some(fb) && exists|j: int|
                        0 <= j < pages_for(fb.1 * fb.2) && same_slot(
                            page_addr(0, i) as u64,
                            page_addr(fb.0, j) as u64,
                            4,
                        )) ==> #[trigger] t.leaf_ok(
                        MapType::Identity,
                        0,
                        i,
                        target_flags(true),
                        old(frames).free_set(),
                        final(frames).free_set(),
                    )
                &&& framebuffer matches Some(fb) ==> forall|j: int|
                    0 <= j < pages_for(fb.1 * fb.2) && page_addr(fb.0, j) != 0 ==> #[trigger] t.leaf_ok(
                        MapType::Identity,
                        fb.0,
                        j,
                        target_flags(true),
                        old(frames).free_set(),
                        final(frames).free_set(),
                    )
            },
            Err(_) => frames_exhausted(*final(frames)),
        },
{
    let max_phys_addr = frames.get_max_phys_addr();
    let num_pages = pages_for_bytes(max_phys_addr.raw() as usize);
    assert(num_pages == pages_for(old(frames).max_phys() as int));
    assert(num_pages <= 0x10_0000_0000) by (nonlinear_arith)
        requires
            num_pages == (max_phys_addr@ + 4095) / 4096,
            max_phys_addr@ <= 0x1_0000_0000_0000,
    ;
    let ghost free0 = frames.free_set();
    let frame = match frames.alloc_block(1) {
        Some(f) => f,
        None => {
            return Err(MapError::OutOfMemory);
        },
    };
    let ghost free1 = frames.free_set();
    let mut pml4 = PageTable::new(frame);
    assert(pml4.wf_at(4));
    match pml4.map(frames, 0, num_pages, MapType::Identity, true) {
        Ok(_) => {},
        Err(e) => {
            return Err(e);
        },
    }
    let ghost after_kernel = pml4;
    let ghost free2 = frames.free_set();
    proof {
        assert(frame_taken(frame@, free0, free2));
    }
    match framebuffer {
        None => {
            proof {
                assert forall|i: int| 0 < i < num_pages implies #[trigger] pml4.leaf_ok(
                    MapType::Identity,
                    0,
                    i,
                    target_flags(true),
                    free0,
                    free2,
                ) by {
                    assert(page_addr(0, i) != 0);
                    assert(pml4.leaf_ok(MapType::Identity, 0, i, target_flags(true), free1, free2));
                }
                assert(pml4.frame_spec() == frame@);
                assert(frame_taken(pml4.frame_spec(), old(frames).free_set(), frames.free_set()));
                assert(pml4.wf());
            }
            Ok(pml4)
        },
        Some((addr, pitch, height)) => {
            let fb_size = (pitch * height) as usize;
            let fb_pages = pages_for_bytes(fb_size);
            assert(fb_pages <= 0x10_0000_0000) by (nonlinear_arith)
                requires
                    fb_pages == (fb_size + 4095) / 4096,
                    fb_size <= u32::MAX,
            ;
            match pml4.map(frames, addr, fb_pages, MapType::Identity, true) {
                Ok(_) => {},
                Err(e) => {
                    return Err(e);
                },
            }
            proof {
                assert forall|j: int|
                    0 <= j < fb_pages && page_addr(addr, j) != 0 implies #[trigger] pml4.leaf_ok(
                    MapType::Identity,
                    addr,
                    j,
                    target_flags(true),
                    free0,
                    frames.free_set(),
                ) by {
                    assert(pml4.leaf_ok(
                        MapType::Identity,
                        addr,
                        j,
                        target_flags(true),
                        free2,
                        frames.free_set(),
                    ));
                }
                assert(frame_taken(frame@, free0, frames.free_set()));
                assert forall|i: int|
                    0 < i < num_pages && !(exists|j: int|
                        0 <= j < fb_pages && same_slot(
                            page_addr(0, i) as u64,
                            page_addr(addr, j) as u64,
                            4,
                        )) implies #[trigger] pml4.leaf_ok(
                    MapType::Identity,
                    0,
                    i,
                    target_flags(true),
                    free0,
                    frames.free_set(),
                ) by {
                    let v = page_addr(0, i) as u64;
                    assert(page_addr(0, i) != 0);
                    assert(after_kernel.leaf_ok(MapType::Identity, 0, i, target_flags(true), free1, free2));
                    assert forall|j: int| 0 <= j < fb_pages implies !#[trigger] same_slot(
                        v,
                        page_addr(addr, j) as u64,
                        4,
                    ) by {}
                    assert(pml4.translate(v) == after_kernel.translate(v));
                }
            }
            Ok(pml4)
        },
    }
}

} // verus!
