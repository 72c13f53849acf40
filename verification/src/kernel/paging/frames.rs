use vstd::prelude::*;
use crate::consts::PAGE_FRAME_SIZE;

verus! {

/// A physical address in memory.
#[derive(Clone, Copy, PartialEq, Eq, Structural)]
pub struct PhysAddr(u64);

impl View for PhysAddr {
    type V = u64;

    closed spec fn view(&self) -> u64 {
        self.0
    }
}

impl PhysAddr {
    pub fn new(addr: u64) -> (r: PhysAddr)
        ensures
            r@ == addr,
    {
        PhysAddr(addr)
    }

    pub fn raw(&self) -> (r: u64)
        ensures
            r == self@,
    {
        self.0
    }

    /// The address `bytes` further up; the sum must not overflow.
    pub fn offset(self, bytes: u64) -> (r: PhysAddr)
        requires
            self@ + bytes <= u64::MAX,
        ensures
            r@ == self@ + bytes,
    {
        PhysAddr(self.0 + bytes)
    }

    /// The address `bytes` further down; the difference must not underflow.
    pub fn offset_back(self, bytes: u64) -> (r: PhysAddr)
        requires
            self@ >= bytes,
        ensures
            r@ == self@ - bytes,
    {
        PhysAddr(self.0 - bytes)
    }
}

/// A free block of physical frames: it starts at `start` and spans `size` bytes.
#[derive(Clone, Copy)]
pub struct PfListNode {
    pub start: u64,
    pub size: usize,
}

impl PfListNode {
    pub open spec fn end(self) -> int {
        self.start + self.size
    }

    fn new(start: u64, size: usize) -> (r: PfListNode)
        ensures
            r.start == start,
            r.size == size,
    {
        PfListNode { start, size }
    }

    fn start_addr(&self) -> (r: PhysAddr)
        ensures
            r@ == self.start,
    {
        PhysAddr::new(self.start)
    }

    fn end_addr(&self) -> (r: PhysAddr)
        requires
            self.end() <= u64::MAX,
        ensures
            r@ == self.end(),
    {
        self.start_addr().offset(self.size as u64)
    }
}

/// The bytes that a free block covers.
pub open spec fn node_holds(n: PfListNode, a: int) -> bool {
    n.start <= a < n.end()
}

/// The bytes in `[start, end)`.
pub open spec fn byte_range(start: int, end: int) -> Set<int> {
    Set::new(|a: int| start <= a < end)
}

/// All bytes that the free list `s` covers.
pub open spec fn free_bytes(s: Seq<PfListNode>) -> Set<int> {
    Set::new(|a: int| exists|i: int| 0 <= i < s.len() && #[trigger] node_holds(s[i], a))
}

/// Blocks are ordered by address and neither overlap nor touch each other.
pub open spec fn separated(s: Seq<PfListNode>) -> bool {
    forall|i: int, j: int| 0 <= i < j < s.len() ==> #[trigger] s[i].end() < #[trigger] s[j].start
}

/// Every block is a non-empty run of whole, aligned frames below `max`.
pub open spec fn blocks_wf(s: Seq<PfListNode>, max: int) -> bool {
    forall|i: int|
        0 <= i < s.len() ==> {
            &&& (#[trigger] s[i]).size > 0
            &&& (s[i].start as int) % (PAGE_FRAME_SIZE as int) == 0
            &&& (s[i].size as int) % (PAGE_FRAME_SIZE as int) == 0
            &&& s[i].end() <= max
            &&& s[i].end() <= usize::MAX
        }
}

/// `i` is the first block of `s` that holds at least `need` bytes.
pub open spec fn first_fit(s: Seq<PfListNode>, need: int, i: int) -> bool {
    &&& 0 <= i < s.len()
    &&& s[i].size >= need
    &&& forall|j: int| 0 <= j < i ==> (#[trigger] s[j]).size < need
}

/// One line of the free list as it is printed.
#[derive(Clone, Copy)]
pub struct FreeRegion {
    pub start: u64,
    pub end: u64,
    pub bytes: usize,
    pub frames: usize,
}

/// A physical frame allocator that keeps free memory as a list of blocks,
/// sorted by address and merged with their neighbours when freed.
/// Blocks are always aligned to `PAGE_FRAME_SIZE` (4096 bytes).
pub struct PfListAllocator {
    list: Vec<PfListNode>,
    max_addr: PhysAddr,
    freed_ends: Ghost<Seq<int>>,
}

/// The largest of the numbers in `s`, or 0 for none.
pub open spec fn largest(s: Seq<int>) -> int
    decreases s.len(),
{
    if s.len() == 0 {
        0
    } else {
        let rest = largest(s.drop_last());
        if s.last() > rest {
            s.last()
        } else {
            rest
        }
    }
}

proof fn lemma_free_bytes_insert(s: Seq<PfListNode>, p: int, n: PfListNode)
    requires
        0 <= p <= s.len(),
    ensures
        free_bytes(s.insert(p, n)) =~= free_bytes(s).union(byte_range(n.start as int, n.end())),
{
    let t = s.insert(p, n);
    assert forall|a: int| #[trigger] free_bytes(t).contains(a) implies free_bytes(s).union(
        byte_range(n.start as int, n.end()),
    ).contains(a) by {
        let i = choose|i: int| 0 <= i < t.len() && #[trigger] node_holds(t[i], a);
        if i < p {
            assert(node_holds(s[i], a));
        } else if i > p {
            assert(node_holds(s[i - 1], a));
        }
    }
    assert forall|a: int|
        #[trigger] free_bytes(s).union(byte_range(n.start as int, n.end())).contains(a) implies free_bytes(
        t,
    ).contains(a) by {
        if free_bytes(s).contains(a) {
            let i = choose|i: int| 0 <= i < s.len() && #[trigger] node_holds(s[i], a);
            if i < p {
                assert(node_holds(t[i], a));
            } else {
                assert(node_holds(t[i + 1], a));
            }
        } else {
            assert(node_holds(t[p], a));
        }
    }
}

proof fn lemma_free_bytes_remove(s: Seq<PfListNode>, k: int)
    requires
        0 <= k < s.len(),
        forall|i: int, j: int|
            0 <= i < j < s.len() ==> #[trigger] s[i].end() <= #[trigger] s[j].start,
    ensures
        free_bytes(s.remove(k)) =~= free_bytes(s).difference(
            byte_range(s[k].start as int, s[k].end()),
        ),
{
    let t = s.remove(k);
    assert forall|a: int| #[trigger] free_bytes(t).contains(a) implies free_bytes(s).difference(
        byte_range(s[k].start as int, s[k].end()),
    ).contains(a) by {
        let i = choose|i: int| 0 <= i < t.len() && #[trigger] node_holds(t[i], a);
        if i < k {
            assert(node_holds(s[i], a));
            assert(s[i].end() <= s[k].start);
        } else {
            assert(node_holds(s[i + 1], a));
            assert(s[k].end() <= s[i + 1].start);
        }
    }
    assert forall|a: int|
        #[trigger] free_bytes(s).difference(byte_range(s[k].start as int, s[k].end())).contains(
            a,
        ) implies free_bytes(t).contains(a) by {
        let i = choose|i: int| 0 <= i < s.len() && #[trigger] node_holds(s[i], a);
        if i < k {
            assert(node_holds(t[i], a));
        } else {
            assert(i != k);
            assert(node_holds(t[i - 1], a));
        }
    }
}

/// Merging block `k` with the block `k + 1` that starts where `k` ends keeps the free bytes.
proof fn lemma_free_bytes_merge(s: Seq<PfListNode>, k: int, merged: PfListNode)
    requires
        0 <= k,
        k + 1 < s.len(),
        s[k].end() == s[k + 1].start,
        merged.start == s[k].start,
        merged.size == s[k].size + s[k + 1].size,
    ensures
        free_bytes(s.update(k, merged).remove(k + 1)) =~= free_bytes(s),
{
    let t = s.update(k, merged).remove(k + 1);
    assert forall|a: int| #[trigger] free_bytes(t).contains(a) implies free_bytes(s).contains(
        a,
    ) by {
        let i = choose|i: int| 0 <= i < t.len() && #[trigger] node_holds(t[i], a);
        if i < k {
            assert(node_holds(s[i], a));
        } else if i == k {
            if a < s[k].end() {
                assert(node_holds(s[k], a));
            } else {
                assert(node_holds(s[k + 1], a));
            }
        } else {
            assert(node_holds(s[i + 1], a));
        }
    }
    assert forall|a: int| #[trigger] free_bytes(s).contains(a) implies free_bytes(t).contains(
        a,
    ) by {
        let i = choose|i: int| 0 <= i < s.len() && #[trigger] node_holds(s[i], a);
        if i < k {
            assert(node_holds(t[i], a));
        } else if i == k || i == k + 1 {
            assert(node_holds(t[k], a));
        } else {
            assert(node_holds(t[i - 1], a));
        }
    }
}


/// Merges the block at `p` with its successor if the two touch.
pub open spec fn merge_next(s: Seq<PfListNode>, p: int) -> Seq<PfListNode> {
    if p + 1 < s.len() && s[p].end() == s[p + 1].start {
        s.update(p, PfListNode { start: s[p].start, size: (s[p].size + s[p + 1].size) as usize }).remove(p + 1)
    } else {
        s
    }
}

/// Merges the block at `p` with its predecessor if the two touch.
pub open spec fn merge_prev(s: Seq<PfListNode>, p: int) -> Seq<PfListNode> {
    if 0 < p < s.len() && s[p - 1].end() == s[p].start {
        s.update(p - 1, PfListNode { start: s[p - 1].start, size: (s[p - 1].size + s[p].size) as usize }).remove(p)
    } else {
        s
    }
}

/// A block that holds no free byte lies wholly below or wholly above every free block.
proof fn lemma_free_block_is_disjoint(s: Seq<PfListNode>, max: int, n: PfListNode)
    requires
        blocks_wf(s, max),
        n.size > 0,
        forall|a: int| n.start <= a < n.end() ==> !#[trigger] free_bytes(s).contains(a),
    ensures
        forall|k: int| 0 <= k < s.len() ==> #[trigger] s[k].end() <= n.start || n.end() <= s[k].start,
{
    assert forall|k: int| 0 <= k < s.len() implies #[trigger] s[k].end() <= n.start || n.end()
        <= s[k].start by {
        if !(s[k].end() <= n.start || n.end() <= s[k].start) {
            let a = if s[k].start <= n.start {
                n.start as int
            } else {
                s[k].start as int
            };
            assert(node_holds(s[k], a));
            assert(free_bytes(s).contains(a));
        }
    }
}

/// The blocks before the insertion point end below the new block, those after it start above.
proof fn lemma_insert_position(s: Seq<PfListNode>, max: int, n: PfListNode, p: int)
    requires
        blocks_wf(s, max),
        separated(s),
        n.size > 0,
        0 <= p <= s.len(),
        forall|k: int| 0 <= k < p ==> (#[trigger] s[k]).start <= n.start,
        p < s.len() ==> s[p].start > n.start,
        forall|k: int| 0 <= k < s.len() ==> #[trigger] s[k].end() <= n.start || n.end() <= s[k].start,
    ensures
        forall|k: int| 0 <= k < p ==> #[trigger] s[k].end() <= n.start,
        forall|k: int| p <= k < s.len() ==> n.end() <= #[trigger] s[k].start,
{
    assert forall|k: int| 0 <= k < p implies #[trigger] s[k].end() <= n.start by {
        assert(s[k].start <= n.start);
    }
    assert forall|k: int| p <= k < s.len() implies n.end() <= #[trigger] s[k].start by {
        if p < k {
            assert(s[p].end() < s[k].start);
        }
    }
}

/// Blocks are separated, except that the block before `p` may touch the block at `p`.
pub open spec fn separated_but_one(s: Seq<PfListNode>, p: int) -> bool {
    &&& 0 <= p < s.len()
    &&& p > 0 ==> s[p - 1].end() <= s[p].start
    &&& forall|i: int, j: int|
        0 <= i < j < s.len() && !(i == p - 1 && j == p) ==> #[trigger] s[i].end() < #[trigger] s[j].start
}

/// Inserting a fitting block and merging it with its successor keeps the list almost separated.
#[verifier::rlimit(40)]
proof fn lemma_merge_next_wf(s: Seq<PfListNode>, max: int, n: PfListNode, p: int)
    requires
        blocks_wf(s, max),
        separated(s),
        n.size > 0,
        (n.start as int) % (PAGE_FRAME_SIZE as int) == 0,
        (n.size as int) % (PAGE_FRAME_SIZE as int) == 0,
        n.end() <= max,
        n.end() <= usize::MAX,
        0 <= p <= s.len(),
        forall|k: int| 0 <= k < p ==> #[trigger] s[k].end() <= n.start,
        forall|k: int| p <= k < s.len() ==> n.end() <= #[trigger] s[k].start,
    ensures
        blocks_wf(merge_next(s.insert(p, n), p), max),
        separated_but_one(merge_next(s.insert(p, n), p), p),
{
    let s1 = s.insert(p, n);
    let s2 = merge_next(s1, p);
    let next_merged = p + 1 < s1.len() && s1[p].end() == s1[p + 1].start;
    // The shape of s2: s[..p], the (possibly grown) new block, then the rest of s.
    assert forall|k: int| 0 <= k < p implies #[trigger] s2[k] == s[k] by {}
    assert forall|k: int| p < k < s2.len() implies #[trigger] s2[k] == s[if next_merged { k } else { k - 1 }] by {}
    assert(s2[p].start == n.start);
    assert(s2[p].end() <= max);
    assert(s2[p].end() <= usize::MAX);
    assert(s2[p].size > 0);
    assert((s2[p].size as int) % (PAGE_FRAME_SIZE as int) == 0);
    assert(blocks_wf(s2, max)) by {
        assert forall|i: int| 0 <= i < s2.len() implies {
            &&& (#[trigger] s2[i]).size > 0
            &&& (s2[i].start as int) % (PAGE_FRAME_SIZE as int) == 0
            &&& (s2[i].size as int) % (PAGE_FRAME_SIZE as int) == 0
            &&& s2[i].end() <= max
            &&& s2[i].end() <= usize::MAX
        } by {
            if i < p {
                assert(s2[i] == s[i]);
            } else if i > p {
                assert(s2[i] == s[if next_merged { i } else { i - 1 }]);
            }
        }
    }
    assert(p + 1 < s2.len() ==> s2[p].end() < s2[p + 1].start) by {
        if p + 1 < s2.len() {
            if next_merged {
                assert(s2[p + 1] == s[p + 1]);
                assert(s[p].end() < s[p + 1].start);
            } else {
                assert(s2[p + 1] == s[p]);
            }
        }
    }
    assert(p > 0 ==> s2[p - 1].end() <= s2[p].start);
    assert forall|i: int, j: int| 0 <= i < j < s2.len() && !(i == p - 1 && j == p) implies #[trigger] s2[i].end()
        < #[trigger] s2[j].start by {
        if j < p {
        } else if i < p && j == p {
            assert(s[i].end() <= s[p - 1].start);
            assert(s[p - 1].start < s[p - 1].end());
            assert(s[p - 1].end() <= n.start);
        } else if i < p {
            let jj = if next_merged { j } else { j - 1 };
            assert(s2[j] == s[jj]);
            assert(n.end() <= s[jj].start);
            assert(s[i].end() <= n.start);
        } else if i == p {
            let jj = if next_merged { j } else { j - 1 };
            assert(s2[j] == s[jj]);
            if j > p + 1 {
                assert(s2[p].end() < s2[p + 1].start);
                let j1 = if next_merged { p + 1 } else { p };
                assert(s2[p + 1] == s[j1]);
                assert(s[j1].end() <= s[jj].start);
            }
        } else {
            let ii = if next_merged { i } else { i - 1 };
            let jj = if next_merged { j } else { j - 1 };
            assert(s2[i] == s[ii]);
            assert(s2[j] == s[jj]);
        }
    }
}

/// Merging the block at `p` with a touching predecessor makes an almost separated list separated.
#[verifier::rlimit(40)]
proof fn lemma_merge_prev_wf(s2: Seq<PfListNode>, max: int, p: int)
    requires
        blocks_wf(s2, max),
        separated_but_one(s2, p),
    ensures
        blocks_wf(merge_prev(s2, p), max),
        separated(merge_prev(s2, p)),
{
    let s3 = merge_prev(s2, p);
    // s3 merges s2[p - 1] and s2[p] when they touch.
    if 0 < p && s2[p - 1].end() == s2[p].start {
        assert forall|k: int| 0 <= k < p - 1 implies #[trigger] s3[k] == s2[k] by {}
        assert forall|k: int| p <= k < s3.len() implies #[trigger] s3[k] == s2[k + 1] by {}
        assert(s3[p - 1].start == s2[p - 1].start);
        assert(s3[p - 1].end() == s2[p].end());
        assert(blocks_wf(s3, max)) by {
            assert forall|i: int| 0 <= i < s3.len() implies {
                &&& (#[trigger] s3[i]).size > 0
                &&& (s3[i].start as int) % (PAGE_FRAME_SIZE as int) == 0
                &&& (s3[i].size as int) % (PAGE_FRAME_SIZE as int) == 0
                &&& s3[i].end() <= max
                &&& s3[i].end() <= usize::MAX
            } by {
                if i < p - 1 {
                    assert(s3[i] == s2[i]);
                } else if i >= p {
                    assert(s3[i] == s2[i + 1]);
                }
            }
        }
        assert(separated(s3)) by {
            assert forall|i: int, j: int| 0 <= i < j < s3.len() implies #[trigger] s3[i].end()
                < #[trigger] s3[j].start by {
                if j < p - 1 {
                    assert(s3[i] == s2[i]);
                    assert(s3[j] == s2[j]);
                } else if j == p - 1 {
                    assert(s3[i] == s2[i]);
                    assert(s2[i].end() < s2[p - 1].start);
                } else if i < p - 1 {
                    assert(s2[i].end() < s2[p - 1].start);
                    assert(s3[i] == s2[i]);
                    assert(s3[j] == s2[j + 1]);
                } else if i == p - 1 {
                    assert(s3[j] == s2[j + 1]);
                    assert(s2[p].end() < s2[j + 1].start);
                } else {
                    assert(s3[i] == s2[i + 1]);
                    assert(s3[j] == s2[j + 1]);
                }
            }
        }
    } else {
        assert(s3 == s2);
        assert(separated(s3)) by {
            assert forall|i: int, j: int| 0 <= i < j < s3.len() implies #[trigger] s3[i].end()
                < #[trigger] s3[j].start by {
                if i == p - 1 && j == p {
                    assert(s2[p - 1].end() <= s2[p].start);
                }
            }
        }
    }
}


impl PfListAllocator {
    /// The free blocks, in list order.
    pub closed spec fn blocks(&self) -> Seq<PfListNode> {
        self.list@
    }

    /// The highest address ever handed to `free_block`.
    pub closed spec fn max_phys(&self) -> u64 {
        self.max_addr@
    }

    /// The end addresses of the blocks handed to `free_block`, in call order.
    pub closed spec fn freed_ends(&self) -> Seq<int> {
        self.freed_ends@
    }

    /// The allocator's invariant: the free blocks are sorted and apart, and the
    /// maximum address is the largest end of any freed block.
    pub open spec fn wf(&self) -> bool {
        &&& blocks_wf(self.blocks(), self.max_phys() as int)
        &&& separated(self.blocks())
        &&& self.max_phys() == largest(self.freed_ends())
    }

    /// All free bytes of physical memory.
    pub open spec fn free_set(&self) -> Set<int> {
        free_bytes(self.blocks())
    }

    /// Create a new empty physical frame list allocator.
    pub fn new() -> (r: PfListAllocator)
        ensures
            r.wf(),
            r.blocks() == Seq::<PfListNode>::empty(),
            r.max_phys() == 0,
            r.freed_ends() == Seq::<int>::empty(),
    {
        PfListAllocator { list: Vec::new(), max_addr: PhysAddr::new(0), freed_ends: Ghost(Seq::empty()) }
    }

    /// Get the maximum physical address ever inserted into the allocator via `free_block()`.
    pub fn get_max_phys_addr(&self) -> (r: PhysAddr)
        ensures
            r@ == self.max_phys(),
            self.wf() ==> r@ == largest(self.freed_ends()),
    {
        self.max_addr
    }

    /// Free a block of `num_frames` physical frames starting at `addr`.
    /// The address must be aligned to `PAGE_FRAME_SIZE`, and the block must not
    /// already be free. The block is merged with adjacent free blocks.
    pub fn free_block(&mut self, addr: PhysAddr, num_frames: usize)
        requires
            old(self).wf(),
            num_frames > 0,
            (addr@ as int) % (PAGE_FRAME_SIZE as int) == 0,
            num_frames * PAGE_FRAME_SIZE <= usize::MAX,
            addr@ + num_frames * PAGE_FRAME_SIZE <= usize::MAX,
            forall|a: int|
                addr@ <= a < addr@ + num_frames * PAGE_FRAME_SIZE ==> !#[trigger] old(
                    self,
                ).free_set().contains(a),
        ensures
            final(self).wf(),
            final(self).free_set() == old(self).free_set().union(
                byte_range(addr@ as int, addr@ + num_frames * PAGE_FRAME_SIZE),
            ),
            final(self).freed_ends() == old(self).freed_ends().push(addr@ + num_frames * PAGE_FRAME_SIZE),
            final(self).max_phys() == if addr@ + num_frames * PAGE_FRAME_SIZE > old(
                self,
            ).max_phys() {
                addr@ + num_frames * PAGE_FRAME_SIZE
            } else {
                old(self).max_phys() as int
            },
    {
        let size_bytes = num_frames * PAGE_FRAME_SIZE;
        let block_end = addr.raw() + size_bytes as u64;
        if block_end > self.max_addr.raw() {
            self.max_addr = PhysAddr::new(block_end);
        }
        proof {
            self.freed_ends@ = self.freed_ends@.push(block_end as int);
            assert(self.freed_ends@.drop_last() == old(self).freed_ends());
            assert(self.free_set() == old(self).free_set());
        }
        self.insert_free(addr, num_frames);
    }

    /// Put the block of `num_frames` frames at `addr`, which lies below the
    /// maximum address, into the free list, merged with adjacent free blocks.
    fn insert_free(&mut self, addr: PhysAddr, num_frames: usize)
        requires
            old(self).wf(),
            num_frames > 0,
            (addr@ as int) % (PAGE_FRAME_SIZE as int) == 0,
            num_frames * PAGE_FRAME_SIZE <= usize::MAX,
            addr@ + num_frames * PAGE_FRAME_SIZE <= old(self).max_phys(),
            addr@ + num_frames * PAGE_FRAME_SIZE <= usize::MAX,
            forall|a: int|
                addr@ <= a < addr@ + num_frames * PAGE_FRAME_SIZE ==> !#[trigger] old(
                    self,
                ).free_set().contains(a),
        ensures
            final(self).wf(),
            final(self).free_set() == old(self).free_set().union(
                byte_range(addr@ as int, addr@ + num_frames * PAGE_FRAME_SIZE),
            ),
            final(self).max_phys() == old(self).max_phys(),
            final(self).freed_ends() == old(self).freed_ends(),
    {
        let size_bytes = num_frames * PAGE_FRAME_SIZE;
        let ghost s = self.list@;
        let ghost max = self.max_addr@;
        let ghost n = PfListNode { start: addr@, size: size_bytes };
        proof {
            assert forall|a: int| n.start <= a < n.end() implies !#[trigger] free_bytes(s).contains(a) by {
                assert(!old(self).free_set().contains(a));
            }
            lemma_free_block_is_disjoint(s, old(self).max_phys() as int, n);
        }

        // find the predecessor
        let mut p: usize = 0;
        while p < self.list.len() && self.list[p].start <= addr.raw()
            invariant
                self.list@ == s,
                p <= s.len(),
                forall|k: int| 0 <= k < p ==> (#[trigger] s[k]).start <= addr@,
            decreases s.len() - p,
        {
            p = p + 1;
        }
        proof {
            lemma_free_bytes_insert(s, p as int, n);
            lemma_insert_position(s, old(self).max_phys() as int, n, p as int);
        }
        self.list.insert(p, PfListNode::new(addr.raw(), size_bytes));
        let ghost s1 = self.list@;
        assert(p < self.list.len());

        // merge with the successor
        if p + 1 < self.list.len() && self.list[p].end_addr().raw() == self.list[p + 1].start {
            let this = self.list[p];
            let next = self.list[p + 1];
            let merged = PfListNode::new(this.start, this.size + next.size);
            proof {
                lemma_free_bytes_merge(s1, p as int, merged);
            }
            self.list.set(p, merged);
            self.list.remove(p + 1);
        }
        assert(self.list@ == merge_next(s1, p as int));
        let ghost s2 = self.list@;

        // merge with the predecessor
        if p > 0 {
            let prev = self.list[p - 1];
            let this = self.list[p];
            if prev.end_addr().raw() == this.start {
                let merged = PfListNode::new(prev.start, prev.size + this.size);
                proof {
                    lemma_free_bytes_merge(s2, p - 1, merged);
                }
                self.list.set(p - 1, merged);
                self.list.remove(p);
            }
        }
        assert(self.list@ == merge_prev(s2, p as int));
        proof {
            lemma_merge_next_wf(s, max as int, n, p as int);
            lemma_merge_prev_wf(s2, max as int, p as int);
        }
    }

    /// Try to allocate a block of `num_frames` physical frames (first fit).
    /// Returns the start of the block; the rest of the chosen free block stays free.
    pub fn alloc_block(&mut self, num_frames: usize) -> (r: Option<PhysAddr>)
        requires
            old(self).wf(),
            num_frames > 0,
            num_frames * PAGE_FRAME_SIZE <= usize::MAX,
        ensures
            final(self).wf(),
            final(self).max_phys() == old(self).max_phys(),
            final(self).freed_ends() == old(self).freed_ends(),
            match r {
                Some(a) => {
                    &&& exists|i: int|
                        first_fit(old(self).blocks(), num_frames * PAGE_FRAME_SIZE, i)
                            && a@ == (#[trigger] old(self).blocks()[i]).start
                    &&& (a@ as int) % (PAGE_FRAME_SIZE as int) == 0
                    &&& byte_range(a@ as int, a@ + num_frames * PAGE_FRAME_SIZE).subset_of(
                        old(self).free_set(),
                    )
                    &&& final(self).free_set() == old(self).free_set().difference(
                        byte_range(a@ as int, a@ + num_frames * PAGE_FRAME_SIZE),
                    )
                },
                None => (forall|i: int|
                    0 <= i < old(self).blocks().len() ==> (#[trigger] old(self).blocks()[i]).size
                        < num_frames * PAGE_FRAME_SIZE) && final(self).free_set() == old(
                    self,
                ).free_set() && final(self).blocks() == old(self).blocks(),
            },
    {
        let need_bytes = num_frames * PAGE_FRAME_SIZE;
        let ghost s = self.list@;
        let mut i: usize = 0;
        while i < self.list.len()
            invariant
                self.list@ == s,
                s == old(self).blocks(),
                old(self).wf(),
                self.max_addr == old(self).max_addr,
                self.freed_ends == old(self).freed_ends,
                need_bytes == num_frames * PAGE_FRAME_SIZE,
                num_frames > 0,
                i <= s.len(),
                forall|j: int| 0 <= j < i ==> (#[trigger] s[j]).size < need_bytes,
            decreases s.len() - i,
        {
            if self.list[i].size >= need_bytes {
                let block = self.list.remove(i);
                let start = block.start_addr();
                let block_bytes = block.size;
                let rest_bytes = block_bytes - need_bytes;
                proof {
                    assert forall|x: int, y: int| 0 <= x < y < s.len() implies #[trigger] s[x].end()
                        <= #[trigger] s[y].start by {}
                    lemma_free_bytes_remove(s, i as int);
                    assert(self.list@ == s.remove(i as int));
                    assert(separated(self.list@)) by {
                        assert forall|x: int, y: int| 0 <= x < y < self.list@.len() implies #[trigger] self.list@[x].end()
                            < #[trigger] self.list@[y].start by {
                            if x < i {
                                if y < i {
                                } else {
                                    assert(self.list@[y] == s[y + 1]);
                                }
                            } else {
                                assert(self.list@[x] == s[x + 1]);
                                assert(self.list@[y] == s[y + 1]);
                            }
                        }
                    }
                    assert(blocks_wf(self.list@, self.max_addr@ as int)) by {
                        assert forall|x: int| 0 <= x < self.list@.len() implies #[trigger] self.list@[x]
                            == s[if x < i { x } else { x + 1 }] by {}
                    }
                }
                if rest_bytes > 0 {
                    let rest_addr = start.offset(need_bytes as u64);
                    let rest_frames = rest_bytes / PAGE_FRAME_SIZE;
                    proof {
                        assert(block.start % 4096 == 0);
                        assert(block.size % 4096 == 0);
                        assert(need_bytes % 4096 == 0) by (nonlinear_arith)
                            requires need_bytes == num_frames * 4096;
                        assert(rest_bytes % 4096 == 0);
                        assert(rest_frames * 4096 == rest_bytes);
                        assert((block.start + need_bytes) % 4096 == 0);
                        assert forall|a: int|
                            rest_addr@ <= a < rest_addr@ + rest_frames * PAGE_FRAME_SIZE implies !#[trigger] self.free_set().contains(a) by {}
                    }
                    self.insert_free(rest_addr, rest_frames);
                }
                proof {
                    assert(first_fit(s, need_bytes as int, i as int));
                    assert forall|a: int| #[trigger] byte_range(start@ as int, start@ + need_bytes).contains(a)
                        implies free_bytes(s).contains(a) by {
                        assert(node_holds(s[i as int], a));
                    }
                    assert forall|a: int| #[trigger] self.free_set().contains(a) <==> free_bytes(s).difference(
                        byte_range(start@ as int, start@ + need_bytes)).contains(a) by {
                        if start@ + need_bytes <= a < block.end() {
                            assert(node_holds(s[i as int], a));
                        }
                    }
                    assert(self.free_set() =~= free_bytes(s).difference(
                        byte_range(start@ as int, start@ + need_bytes),
                    ));
                }
                return Some(start);
            }
            i = i + 1;
        }
        None
    }

    /// The free list as it is printed: start, end, size and number of frames of each block.
    pub fn dump_free_list(&self) -> (r: Vec<FreeRegion>)
        requires
            self.wf(),
        ensures
            r.len() == self.blocks().len(),
            forall|i: int|
                0 <= i < r.len() ==> {
                    &&& (#[trigger] r[i]).start == self.blocks()[i].start
                    &&& r[i].end == self.blocks()[i].end()
                    &&& r[i].bytes == self.blocks()[i].size
                    &&& r[i].frames == (self.blocks()[i].size as int) / (PAGE_FRAME_SIZE as int)
                },
    {
        let mut out: Vec<FreeRegion> = Vec::new();
        let mut i: usize = 0;
        while i < self.list.len()
            invariant
                self.wf(),
                i <= self.list@.len(),
                out.len() == i,
                forall|k: int|
                    0 <= k < i ==> {
                        &&& (#[trigger] out@[k]).start == self.blocks()[k].start
                        &&& out@[k].end == self.blocks()[k].end()
                        &&& out@[k].bytes == self.blocks()[k].size
                        &&& out@[k].frames == (self.blocks()[k].size as int) / (PAGE_FRAME_SIZE as int)
                    },
            decreases self.list@.len() - i,
        {
            let region = self.list[i];
            assert(self.blocks()[i as int] == region);
            out.push(
                FreeRegion {
                    start: region.start_addr().raw(),
                    end: region.end_addr().raw(),
                    bytes: region.size,
                    frames: region.size / PAGE_FRAME_SIZE,
                },
            );
            i = i + 1;
        }
        out
    }
}

/// A run of free bytes lies inside a single free block, since free blocks never
/// touch: freed frames can always be allocated again in one piece, so
/// `alloc_block` for them does not fail.
pub proof fn law_free_run_fits_one_block(f: PfListAllocator, start: int, len: int)
    requires
        f.wf(),
        len > 0,
        byte_range(start, start + len).subset_of(f.free_set()),
    ensures
        exists|i: int|
            0 <= i < f.blocks().len() && (#[trigger] f.blocks()[i]).start <= start && start + len
                <= f.blocks()[i].end() && f.blocks()[i].size >= len,
{
    let s = f.blocks();
    assert(byte_range(start, start + len).contains(start));
    assert(free_bytes(s).contains(start));
    let i = choose|i: int| 0 <= i < s.len() && #[trigger] node_holds(s[i], start);
    if s[i].end() < start + len {
        let e = s[i].end();
        assert(byte_range(start, start + len).contains(e));
        assert(free_bytes(s).contains(e));
        let j = choose|j: int| 0 <= j < s.len() && #[trigger] node_holds(s[j], e);
        if j < i {
            assert(s[j].end() < s[i].start);
        } else if j > i {
            assert(s[i].end() < s[j].start);
        }
    }
    assert(s[i].start <= start && start + len <= s[i].end());
}

/// `largest(s)` bounds every element of `s`, and is 0 or one of them.
proof fn lemma_largest(s: Seq<int>)
    ensures
        forall|i: int| 0 <= i < s.len() ==> #[trigger] s[i] <= largest(s),
        largest(s) == 0 || s.contains(largest(s)),
    decreases s.len(),
{
    if s.len() > 0 {
        let d = s.drop_last();
        lemma_largest(d);
        assert forall|i: int| 0 <= i < s.len() implies #[trigger] s[i] <= largest(s) by {
            if i < d.len() {
                assert(s[i] == d[i]);
            }
        }
        if largest(s) != 0 && largest(s) != s.last() {
            let k = choose|k: int| 0 <= k < d.len() && d[k] == largest(d);
            assert(s[k] == d[k]);
        }
    }
}

/// The maximum physical address is the largest end of any block ever handed to
/// `free_block` (0 before the first call): no freed block ends above it, and
/// one ends right at it.
pub proof fn law_max_phys_is_largest_freed_end(f: PfListAllocator)
    requires
        f.wf(),
    ensures
        f.max_phys() == largest(f.freed_ends()),
        forall|i: int| 0 <= i < f.freed_ends().len() ==> #[trigger] f.freed_ends()[i] <= f.max_phys(),
        f.max_phys() == 0 || f.freed_ends().contains(f.max_phys() as int),
{
    lemma_largest(f.freed_ends());
}

/// Every block of a free list is non-empty.
pub open spec fn nonempty_blocks(s: Seq<PfListNode>) -> bool {
    forall|i: int| 0 <= i < s.len() ==> (#[trigger] s[i]).size > 0
}

/// Two sorted, separated lists of non-empty blocks that cover the same bytes are the same list.
proof fn lemma_free_list_canonical(s: Seq<PfListNode>, t: Seq<PfListNode>)
    requires
        separated(s),
        separated(t),
        nonempty_blocks(s),
        nonempty_blocks(t),
        free_bytes(s) == free_bytes(t),
    ensures
        s == t,
    decreases s.len(),
{
    if s.len() == 0 || t.len() == 0 {
        if s.len() > 0 {
            assert(node_holds(s[0], s[0].start as int));
            assert(free_bytes(s).contains(s[0].start as int));
        }
        if t.len() > 0 {
            assert(node_holds(t[0], t[0].start as int));
            assert(free_bytes(t).contains(t[0].start as int));
        }
        assert(s =~= t);
    } else {
        let f = free_bytes(s);
        // the first blocks start together
        assert(node_holds(s[0], s[0].start as int));
        assert(f.contains(s[0].start as int));
        let jt = choose|j: int| 0 <= j < t.len() && #[trigger] node_holds(t[j], s[0].start as int);
        if jt > 0 {
            assert(t[0].end() < t[jt].start);
        }
        assert(node_holds(t[0], t[0].start as int));
        assert(free_bytes(t).contains(t[0].start as int));
        let js = choose|j: int| 0 <= j < s.len() && #[trigger] node_holds(s[j], t[0].start as int);
        if js > 0 {
            assert(s[0].end() < s[js].start);
        }
        assert(s[0].start == t[0].start);
        // and end together
        if s[0].end() < t[0].end() {
            let e = s[0].end();
            assert(node_holds(t[0], e));
            assert(free_bytes(t).contains(e));
            let k = choose|k: int| 0 <= k < s.len() && #[trigger] node_holds(s[k], e);
            if k > 0 {
                assert(s[0].end() < s[k].start);
            }
        }
        if t[0].end() < s[0].end() {
            let e = t[0].end();
            assert(node_holds(s[0], e));
            assert(f.contains(e));
            let k = choose|k: int| 0 <= k < t.len() && #[trigger] node_holds(t[k], e);
            if k > 0 {
                assert(t[0].end() < t[k].start);
            }
        }
        assert(s[0] == t[0]);
        let s1 = s.drop_first();
        let t1 = t.drop_first();
        assert forall|i: int, j: int| 0 <= i < j < s1.len() implies #[trigger] s1[i].end() < #[trigger] s1[j].start by {
            assert(s1[i] == s[i + 1] && s1[j] == s[j + 1]);
        }
        assert forall|i: int, j: int| 0 <= i < j < t1.len() implies #[trigger] t1[i].end() < #[trigger] t1[j].start by {
            assert(t1[i] == t[i + 1] && t1[j] == t[j + 1]);
        }
        assert forall|i: int| 0 <= i < s1.len() implies (#[trigger] s1[i]).size > 0 by {
            assert(s1[i] == s[i + 1]);
        }
        assert forall|i: int| 0 <= i < t1.len() implies (#[trigger] t1[i]).size > 0 by {
            assert(t1[i] == t[i + 1]);
        }
        // what is left after the first block is the same on both sides
        assert forall|a: int| #[trigger] free_bytes(s1).contains(a) <==> free_bytes(t1).contains(a) by {
            if free_bytes(s1).contains(a) {
                let i = choose|i: int| 0 <= i < s1.len() && #[trigger] node_holds(s1[i], a);
                assert(s1[i] == s[i + 1]);
                assert(s[0].end() < s[i + 1].start);
                assert(node_holds(s[i + 1], a));
                assert(free_bytes(t).contains(a));
                let k = choose|k: int| 0 <= k < t.len() && #[trigger] node_holds(t[k], a);
                assert(k != 0);
                assert(t1[k - 1] == t[k]);
                assert(node_holds(t1[k - 1], a));
            }
            if free_bytes(t1).contains(a) {
                let i = choose|i: int| 0 <= i < t1.len() && #[trigger] node_holds(t1[i], a);
                assert(t1[i] == t[i + 1]);
                assert(t[0].end() < t[i + 1].start);
                assert(node_holds(t[i + 1], a));
                assert(free_bytes(t).contains(a));
                let k = choose|k: int| 0 <= k < s.len() && #[trigger] node_holds(s[k], a);
                assert(k != 0);
                assert(s1[k - 1] == s[k]);
                assert(node_holds(s1[k - 1], a));
            }
        }
        assert(free_bytes(s1) =~= free_bytes(t1));
        lemma_free_list_canonical(s1, t1);
        assert(s =~= t) by {
            assert forall|i: int| 0 <= i < s.len() implies s[i] == t[i] by {
                if i > 0 {
                    assert(s[i] == s1[i - 1] && t[i] == t1[i - 1]);
                }
            }
        }
    }
}

/// The free list is determined by the free bytes alone: two allocators with
/// the same free memory hold the same blocks, in the same order.
pub proof fn law_free_list_follows_free_bytes(f: PfListAllocator, g: PfListAllocator)
    requires
        f.wf(),
        g.wf(),
        f.free_set() == g.free_set(),
    ensures
        f.blocks() == g.blocks(),
{
    lemma_free_list_canonical(f.blocks(), g.blocks());
}

/// Freeing the frames that lie exactly between two neighbouring free blocks
/// joins the three into one block, from the start of the first to the end of
/// the second; every other block stays as and where it was.
pub proof fn law_free_block_joins_neighbours(
    before: PfListAllocator,
    after: PfListAllocator,
    i: int,
    addr: int,
    len: int,
)
    requires
        before.wf(),
        after.wf(),
        0 <= i,
        i + 1 < before.blocks().len(),
        len > 0,
        before.blocks()[i].end() == addr,
        addr + len == before.blocks()[i + 1].start,
        after.free_set() == before.free_set().union(byte_range(addr, addr + len)),
    ensures
        after.blocks().len() + 1 == before.blocks().len(),
        after.blocks()[i].start == before.blocks()[i].start,
        after.blocks()[i].end() == before.blocks()[i + 1].end(),
        forall|k: int| 0 <= k < i ==> #[trigger] after.blocks()[k] == before.blocks()[k],
        forall|k: int| i < k < after.blocks().len() ==> #[trigger] after.blocks()[k] == before.blocks()[k + 1],
{
    let s = before.blocks();
    let merged = PfListNode { start: s[i].start, size: (s[i + 1].end() - s[i].start) as usize };
    let m = Seq::new((s.len() - 1) as nat, |k: int| if k < i { s[k] } else if k == i { merged } else { s[k + 1] });
    assert(s[i].end() < s[i + 1].start);
    assert(merged.end() == s[i + 1].end());
    assert forall|x: int, y: int| 0 <= x < y < m.len() implies #[trigger] m[x].end() < #[trigger] m[y].start by {
        if x < i {
            if y == i {
                assert(s[x].end() < s[i].start);
            } else if y > i {
                assert(s[x].end() < s[y + 1].start);
            }
        } else if x == i {
            assert(s[i + 1].end() < s[y + 1].start);
        } else {
            assert(s[x + 1].end() < s[y + 1].start);
        }
    }
    assert forall|k: int| 0 <= k < m.len() implies (#[trigger] m[k]).size > 0 by {
        if k < i {
            assert(s[k].size > 0);
        } else if k > i {
            assert(s[k + 1].size > 0);
        }
    }
    let u = before.free_set().union(byte_range(addr, addr + len));
    assert forall|a: int| #[trigger] free_bytes(m).contains(a) <==> u.contains(a) by {
        if free_bytes(m).contains(a) {
            let k = choose|k: int| 0 <= k < m.len() && #[trigger] node_holds(m[k], a);
            if k < i {
                assert(node_holds(s[k], a));
            } else if k > i {
                assert(node_holds(s[k + 1], a));
            } else if a < s[i].end() {
                assert(node_holds(s[i], a));
            } else if a >= s[i + 1].start {
                assert(node_holds(s[i + 1], a));
            } else {
                assert(byte_range(addr, addr + len).contains(a));
            }
        }
        if u.contains(a) {
            if free_bytes(s).contains(a) {
                let k = choose|k: int| 0 <= k < s.len() && #[trigger] node_holds(s[k], a);
                if k < i {
                    assert(node_holds(m[k], a));
                } else if k == i || k == i + 1 {
                    assert(node_holds(m[i], a));
                } else {
                    assert(node_holds(m[k - 1], a));
                }
            } else {
                assert(node_holds(m[i], a));
            }
        }
    }
    assert(free_bytes(m) =~= after.free_set());
    lemma_free_list_canonical(after.blocks(), m);
}

/// Taking the first `need` bytes of free block `i` leaves the rest of that
/// block in its place, or no block where nothing is left; every other block
/// stays as it was.
pub proof fn law_alloc_block_shrinks_block(before: PfListAllocator, after: PfListAllocator, i: int, need: int)
    requires
        before.wf(),
        after.wf(),
        0 <= i < before.blocks().len(),
        0 < need <= before.blocks()[i].size,
        after.free_set() == before.free_set().difference(
            byte_range(before.blocks()[i].start as int, before.blocks()[i].start + need),
        ),
    ensures
        after.blocks() == if need == before.blocks()[i].size {
            before.blocks().remove(i)
        } else {
            before.blocks().update(
                i,
                PfListNode {
                    start: (before.blocks()[i].start + need) as u64,
                    size: (before.blocks()[i].size - need) as usize,
                },
            )
        },
{
    let s = before.blocks();
    let start = s[i].start as int;
    let rest = PfListNode { start: (start + need) as u64, size: (s[i].size - need) as usize };
    let m = if need == s[i].size { s.remove(i) } else { s.update(i, rest) };
    assert(s[i].end() <= usize::MAX);
    assert forall|x: int, y: int| 0 <= x < y < m.len() implies #[trigger] m[x].end() < #[trigger] m[y].start by {
        if need == s[i].size {
            let x0 = if x < i { x } else { x + 1 };
            let y0 = if y < i { y } else { y + 1 };
            assert(m[x] == s[x0] && m[y] == s[y0]);
            assert(s[x0].end() < s[y0].start);
        } else {
            assert(s[x].end() < s[y].start);
        }
    }
    assert forall|k: int| 0 <= k < m.len() implies (#[trigger] m[k]).size > 0 by {
        if need == s[i].size {
            let k0 = if k < i { k } else { k + 1 };
            assert(m[k] == s[k0]);
        } else if k != i {
            assert(m[k] == s[k]);
        }
    }
    let d = before.free_set().difference(byte_range(start, start + need));
    assert forall|a: int| #[trigger] free_bytes(m).contains(a) <==> d.contains(a) by {
        if free_bytes(m).contains(a) {
            let k = choose|k: int| 0 <= k < m.len() && #[trigger] node_holds(m[k], a);
            if need == s[i].size {
                let k0 = if k < i { k } else { k + 1 };
                assert(m[k] == s[k0]);
                assert(node_holds(s[k0], a));
                if k0 < i {
                    assert(s[k0].end() < s[i].start);
                } else {
                    assert(s[i].end() < s[k0].start);
                }
            } else if k == i {
                assert(node_holds(s[i], a));
            } else {
                assert(node_holds(s[k], a));
                if k < i {
                    assert(s[k].end() < s[i].start);
                } else {
                    assert(s[i].end() < s[k].start);
                }
            }
        }
        if d.contains(a) {
            let k = choose|k: int| 0 <= k < s.len() && #[trigger] node_holds(s[k], a);
            if need == s[i].size {
                if k < i {
                    assert(node_holds(m[k], a));
                } else if k > i {
                    assert(node_holds(m[k - 1], a));
                }
            } else {
                assert(node_holds(m[k], a));
            }
        }
    }
    assert(free_bytes(m) =~= after.free_set());
    lemma_free_list_canonical(after.blocks(), m);
}

} // verus!
