use vstd::prelude::*;

verus! {

/// `align` is a power of two.
pub open spec fn is_pow2(align: usize) -> bool {
    align > 0 && align & ((align - 1) as usize) == 0
}

/// The smallest multiple of `align` that is at least `addr`.
pub open spec fn align_up_spec(addr: int, align: int) -> int {
    if addr % align == 0 {
        addr
    } else {
        addr + align - addr % align
    }
}

proof fn lemma_align_up(addr: int, align: int)
    requires
        addr >= 0,
        align > 0,
    ensures
        align_up_spec(addr, align) % align == 0,
        addr <= align_up_spec(addr, align) < addr + align,
{
    if addr % align != 0 {
        assert((addr + align - addr % align) % align == 0) by (nonlinear_arith)
            requires
                align > 0,
                addr >= 0,
        {
            vstd::arithmetic::div_mod::lemma_fundamental_div_mod(addr, align);
            assert(addr + align - addr % align == (addr / align + 1) * align) by (nonlinear_arith)
                requires addr == align * (addr / align) + addr % align;
            vstd::arithmetic::div_mod::lemma_mod_multiples_basic(addr / align + 1, align);
        }
    }
}

/// Align `addr` upwards to a multiple of `align`, which must be a power of two.
pub fn align_up(addr: usize, align: usize) -> (r: usize)
    requires
        is_pow2(align),
        addr + align - 1 <= usize::MAX,
    ensures
        r == align_up_spec(addr as int, align as int),
        r % align == 0,
        addr <= r < addr + align,
{
    proof {
        lemma_align_up(addr as int, align as int);
    }
    let rem = addr % align;
    if rem == 0 {
        addr
    } else {
        addr + (align - rem)
    }
}


/// Alignment of a free-list header.
pub const LIST_NODE_ALIGN: usize = 8;

/// Size of a free-list header.
pub const LIST_NODE_SIZE: usize = 16;

pub open spec fn max_of(a: int, b: int) -> int {
    if a > b {
        a
    } else {
        b
    }
}

/// The alignment that an allocation gets: at least that of a free-list header.
pub open spec fn sized_align(align: int) -> int {
    max_of(align, LIST_NODE_ALIGN as int)
}

/// The size that an allocation takes: padded to its alignment, and large enough
/// to hold a free-list header once it is freed.
pub open spec fn sized_size(size: int, align: int) -> int {
    max_of(align_up_spec(size, sized_align(align)), LIST_NODE_SIZE as int)
}

/// The layout conditions that `size_align` needs: a valid alignment, and a padded
/// size that fits in `isize`.
pub open spec fn layout_ok(size: usize, align: usize) -> bool {
    &&& is_pow2(align)
    &&& size + sized_align(align as int) - 1 <= usize::MAX
    &&& align_up_spec(size as int, sized_align(align as int)) <= isize::MAX
}

/// A free block of the heap: it starts at `start` and spans `size` bytes.
#[derive(Clone, Copy)]
pub struct ListNode {
    pub start: usize,
    pub size: usize,
}

impl ListNode {
    pub open spec fn end(self) -> int {
        self.start + self.size
    }

    /// Creates a new block header.
    fn new(start: usize, size: usize) -> (r: ListNode)
        ensures
            r.start == start,
            r.size == size,
    {
        ListNode { start, size }
    }

    /// Get the start address of the memory block.
    fn start_addr(&self) -> (r: usize)
        ensures
            r == self.start,
    {
        self.start
    }

    /// Get the end address of the memory block.
    fn end_addr(&self) -> (r: usize)
        requires
            self.end() <= usize::MAX,
        ensures
            r == self.end(),
    {
        self.start_addr() + self.size
    }
}

/// Block `b` can hold `size` bytes at an address aligned to `align`.
pub open spec fn fits(b: ListNode, size: int, align: int) -> bool {
    let s = align_up_spec(b.start as int, align);
    s < b.end() && size <= b.end() - s
}

/// `i` is the first block of `s` that can hold the allocation.
pub open spec fn first_fitting(s: Seq<ListNode>, size: int, align: int, i: int) -> bool {
    &&& 0 <= i < s.len()
    &&& fits(s[i], size, align)
    &&& forall|j: int| 0 <= j < i ==> !fits(#[trigger] s[j], size, align)
}

/// Aligning the start of any block of `s` to `align` does not overflow.
pub open spec fn aligns_without_overflow(s: Seq<ListNode>, align: int) -> bool {
    forall|i: int| 0 <= i < s.len() ==> (#[trigger] s[i]).start + align - 1 <= usize::MAX
}

/// What an allocation of `size` bytes aligned to `align` returns, and the free list it
/// leaves: the first fitting block is taken, and what is left of it behind the
/// allocation goes back to the front of the list if it can hold a list node;
/// a smaller rest stays with the allocation.
pub open spec fn alloc_spec(s: Seq<ListNode>, size: int, align: int) -> (int, Seq<ListNode>) {
    let sz = sized_size(size, align);
    let al = sized_align(align);
    if exists|i: int| first_fitting(s, sz, al, i) {
        let i = choose|i: int| first_fitting(s, sz, al, i);
        let addr = align_up_spec(s[i].start as int, al);
        let rest = s[i].end() - addr - sz;
        (
            addr,
            if rest >= LIST_NODE_SIZE {
                seq![ListNode { start: (addr + sz) as usize, size: rest as usize }] + s.remove(i)
            } else {
                s.remove(i)
            },
        )
    } else {
        (0, s)
    }
}

/// The free list after a block at `ptr` with the given layout has been freed.
pub open spec fn dealloc_spec(s: Seq<ListNode>, ptr: int, size: int, align: int) -> Seq<ListNode> {
    seq![ListNode { start: ptr as usize, size: sized_size(size, align) as usize }] + s
}

proof fn lemma_first_fitting_unique(s: Seq<ListNode>, size: int, align: int, i: int, j: int)
    requires
        first_fitting(s, size, align, i),
        first_fitting(s, size, align, j),
    ensures
        i == j,
{
    if i < j {
        assert(!fits(s[i], size, align));
    } else if j < i {
        assert(!fits(s[j], size, align));
    }
}

/// A heap allocator that keeps its free blocks in a list. Allocation takes the
/// first block that fits; freed blocks are put at the front of the list.
pub struct LinkedListAllocator {
    head_size: usize,
    list: Vec<ListNode>,
    heap_start: usize,
    heap_end: usize,
}

impl LinkedListAllocator {
    /// The free blocks, in list order.
    pub closed spec fn blocks(&self) -> Seq<ListNode> {
        self.list@
    }

    pub closed spec fn heap_start_spec(&self) -> usize {
        self.heap_start
    }

    pub closed spec fn heap_end_spec(&self) -> usize {
        self.heap_end
    }

    /// The size of the block that `init` puts into the free list.
    pub closed spec fn initial_size(&self) -> usize {
        self.head_size
    }

    /// The allocator's invariant.
    pub open spec fn wf(&self) -> bool {
        &&& forall|i: int| 0 <= i < self.blocks().len() ==> (#[trigger] self.blocks()[i]).end() <= usize::MAX
        &&& self.heap_start_spec() + self.initial_size() <= usize::MAX
        &&& self.heap_end_spec() == self.heap_start_spec() + self.initial_size()
    }

    /// Create a new empty linked list allocator.
    pub fn new(heap_start: usize, heap_size: usize) -> (r: LinkedListAllocator)
        requires
            heap_start + heap_size <= usize::MAX,
        ensures
            r.wf(),
            r.blocks() == Seq::<ListNode>::empty(),
            r.heap_start_spec() == heap_start,
            r.heap_end_spec() == heap_start + heap_size,
            r.initial_size() == heap_size,
    {
        LinkedListAllocator {
            head_size: heap_size,
            list: Vec::new(),
            heap_start,
            heap_end: heap_start + heap_size,
        }
    }

    /// Initialize the allocator with the heap bounds given in the constructor.
    pub fn init(&mut self)
        requires
            old(self).wf(),
        ensures
            final(self).wf(),
            final(self).blocks() == seq![ListNode { start: old(self).heap_start_spec(), size: old(self).initial_size() }] + old(self).blocks(),
            final(self).heap_start_spec() == old(self).heap_start_spec(),
            final(self).heap_end_spec() == old(self).heap_end_spec(),
            final(self).initial_size() == old(self).initial_size(),
    {
        self.add_free_block(self.heap_start, self.head_size)
    }

    /// Adds the given free memory block `addr` to the front of the free list.
    fn add_free_block(&mut self, addr: usize, size: usize)
        requires
            old(self).wf(),
            addr + size <= usize::MAX,
        ensures
            final(self).wf(),
            final(self).blocks() == seq![ListNode { start: addr, size }] + old(self).blocks(),
            final(self).heap_start_spec() == old(self).heap_start_spec(),
            final(self).heap_end_spec() == old(self).heap_end_spec(),
            final(self).initial_size() == old(self).initial_size(),
    {
        self.list.insert(0, ListNode::new(addr, size));
        assert(self.list@ =~= seq![ListNode { start: addr, size }] + old(self).list@);
        assert forall|i: int| 0 <= i < self.blocks().len() implies (#[trigger] self.blocks()[i]).end() <= usize::MAX by {
            if i > 0 {
                assert(self.blocks()[i] == old(self).blocks()[i - 1]);
            }
        }
    }

    /// Check if the given block is large enough for an allocation with `size` and `align`.
    fn check_block_for_alloc(block: &ListNode, size: usize, align: usize) -> (r: Result<(), ()>)
        requires
            is_pow2(align),
            block.end() <= usize::MAX,
            block.start + align - 1 <= usize::MAX,
        ensures
            r is Ok <==> fits(*block, size as int, align as int),
    {
        let start = align_up(block.start_addr(), align);
        if start >= block.end_addr() {
            return Err(());
        }
        if size > block.end_addr() - start {
            return Err(());
        }
        Ok(())
    }

    /// Search a free block with the given size and alignment and remove it from the list.
    fn find_free_block(&mut self, size: usize, align: usize) -> (r: Option<ListNode>)
        requires
            old(self).wf(),
            is_pow2(align),
            aligns_without_overflow(old(self).blocks(), align as int),
        ensures
            final(self).wf(),
            final(self).heap_start_spec() == old(self).heap_start_spec(),
            final(self).heap_end_spec() == old(self).heap_end_spec(),
            final(self).initial_size() == old(self).initial_size(),
            match r {
                Some(b) => exists|i: int|
                    first_fitting(old(self).blocks(), size as int, align as int, i)
                        && b == #[trigger] old(self).blocks()[i]
                        && final(self).blocks() == old(self).blocks().remove(i),
                None => (forall|i: int|
                    0 <= i < old(self).blocks().len() ==> !fits(
                        #[trigger] old(self).blocks()[i],
                        size as int,
                        align as int,
                    )) && final(self).blocks() == old(self).blocks(),
            },
    {
        let ghost s = self.list@;
        let mut i: usize = 0;
        while i < self.list.len()
            invariant
                self.list@ == s,
                s == old(self).blocks(),
                old(self).wf(),
                self.heap_start == old(self).heap_start,
                self.heap_end == old(self).heap_end,
                self.head_size == old(self).head_size,
                is_pow2(align),
                aligns_without_overflow(s, align as int),
                i <= s.len(),
                forall|j: int| 0 <= j < i ==> !fits(#[trigger] s[j], size as int, align as int),
            decreases s.len() - i,
        {
            if let Ok(()) = Self::check_block_for_alloc(&self.list[i], size, align) {
                let block = self.list.remove(i);
                assert(first_fitting(s, size as int, align as int, i as int));
                return Some(block);
            }
            i = i + 1;
        }
        None
    }

    /// Adjust the layout `size`/`align` so that the resulting allocated memory
    /// block is also capable of storing a free-list header.
    pub fn size_align(size: usize, align: usize) -> (r: (usize, usize))
        requires
            layout_ok(size, align),
        ensures
            r.0 == sized_size(size as int, align as int),
            r.1 == sized_align(align as int),
            is_pow2(r.1),
    {
        let a = if align > LIST_NODE_ALIGN {
            align
        } else {
            LIST_NODE_ALIGN
        };
        assert(8usize & 7usize == 0) by (bit_vector);
        let padded = align_up(size, a);
        let s = if padded > LIST_NODE_SIZE {
            padded
        } else {
            LIST_NODE_SIZE
        };
        (s, a)
    }

    /// The heap bounds and the free list, for printing.
    pub fn dump_free_list(&self) -> (r: (usize, usize, Vec<ListNode>))
        ensures
            r.0 == self.heap_start_spec(),
            r.1 == self.heap_end_spec(),
            r.2@ == self.blocks(),
    {
        let mut out: Vec<ListNode> = Vec::new();
        let mut i: usize = 0;
        while i < self.list.len()
            invariant
                i <= self.list@.len(),
                out@ == self.list@.subrange(0, i as int),
            decreases self.list@.len() - i,
        {
            out.push(self.list[i]);
            i = i + 1;
            assert(out@ =~= self.list@.subrange(0, i as int));
        }
        assert(out@ =~= self.list@);
        (self.heap_start, self.heap_end, out)
    }

    /// Allocate `size` bytes aligned to `align` (first fit). Returns the address of the
    /// allocated memory, or 0 when no free block can hold it. What is left of the
    /// chosen block behind the allocation goes back to the front of the free list
    /// if it can hold a list node.
    pub fn allocate(&mut self, size: usize, align: usize) -> (r: usize)
        requires
            old(self).wf(),
            layout_ok(size, align),
            aligns_without_overflow(old(self).blocks(), sized_align(align as int)),
        ensures
            final(self).wf(),
            (r as int, final(self).blocks()) == alloc_spec(old(self).blocks(), size as int, align as int),
            (r as int) % sized_align(align as int) == 0,
            final(self).heap_start_spec() == old(self).heap_start_spec(),
            final(self).heap_end_spec() == old(self).heap_end_spec(),
            final(self).initial_size() == old(self).initial_size(),
    {
        let (size, align) = LinkedListAllocator::size_align(size, align);
        let ghost s = self.list@;
        if let Some(block) = self.find_free_block(size, align) {
            let addr = align_up(block.start_addr(), align);
            let rest = block.size - (addr - block.start_addr()) - size;
            proof {
                let i = choose|i: int| first_fitting(s, size as int, align as int, i) && block == s[i] && self.list@ == s.remove(i);
                let j = choose|j: int| first_fitting(s, size as int, align as int, j);
                lemma_first_fitting_unique(s, size as int, align as int, i, j);
            }
            if rest >= LIST_NODE_SIZE {
                self.add_free_block(addr + size, rest);
            }
            addr
        } else {
            0
        }
    }

    /// Free the memory at `ptr` that was allocated with `size` and `align`:
    /// it goes to the front of the free list.
    pub fn dealloc(&mut self, ptr: usize, size: usize, align: usize)
        requires
            old(self).wf(),
            layout_ok(size, align),
            ptr + sized_size(size as int, align as int) <= usize::MAX,
        ensures
            final(self).wf(),
            final(self).blocks() == dealloc_spec(old(self).blocks(), ptr as int, size as int, align as int),
            final(self).heap_start_spec() == old(self).heap_start_spec(),
            final(self).heap_end_spec() == old(self).heap_end_spec(),
            final(self).initial_size() == old(self).initial_size(),
    {
        let (size, _) = LinkedListAllocator::size_align(size, align);
        self.add_free_block(ptr, size)
    }
}

/// Freeing a block and then allocating with the same layout gives the block back
/// and leaves the free list as it was, when the block's address is aligned.
pub proof fn law_dealloc_then_alloc(s: Seq<ListNode>, ptr: usize, size: usize, align: usize)
    requires
        layout_ok(size, align),
        ptr + sized_size(size as int, align as int) <= usize::MAX,
        (ptr as int) % sized_align(align as int) == 0,
    ensures
        alloc_spec(dealloc_spec(s, ptr as int, size as int, align as int), size as int, align as int)
            == (ptr as int, s),
{
    let t = dealloc_spec(s, ptr as int, size as int, align as int);
    let sz = sized_size(size as int, align as int);
    let al = sized_align(align as int);
    assert(first_fitting(t, sz, al, 0));
    let i = choose|i: int| first_fitting(t, sz, al, i);
    lemma_first_fitting_unique(t, sz, al, i, 0);
    assert(t.remove(0) =~= s);
}

} // verus!
