use vstd::prelude::*;

verus! {

/// The kind of memory a virtual memory area holds.
#[derive(Debug, PartialEq, Eq, Structural, Copy, Clone)]
pub enum VmaType {
    Code,
    Heap,
    Stack,
}

/// Virtual Memory Area (VMA): the addresses `[start, end)` of a process.
#[derive(Copy, Clone)]
pub struct VMA {
    start: u64,
    end: u64,
    typ: VmaType,
}

impl VMA {
    pub closed spec fn start_spec(self) -> u64 {
        self.start
    }

    pub closed spec fn end_spec(self) -> u64 {
        self.end
    }

    pub closed spec fn typ_spec(self) -> VmaType {
        self.typ
    }

    /// `addr` lies in the area.
    pub open spec fn holds(self, addr: int) -> bool {
        self.start_spec() <= addr < self.end_spec()
    }

    /// The two areas share an address range.
    pub open spec fn overlaps_spec(self, other: VMA) -> bool {
        self.start_spec() < other.end_spec() && other.start_spec() < self.end_spec()
    }

    /// Create a new VMA with a start and end address and a given type.
    pub fn new(start: u64, end: u64, typ: VmaType) -> (r: VMA)
        ensures
            r.start_spec() == start,
            r.end_spec() == end,
            r.typ_spec() == typ,
    {
        VMA { start, end, typ }
    }

    /// Check if this VMA overlaps with another one.
    pub fn overlaps(&self, other: &VMA) -> (r: bool)
        ensures
            r == self.overlaps_spec(*other),
    {
        self.start < other.end && other.start < self.end
    }

    /// Check if `virt_addr` lies in this VMA.
    pub fn is_inside(&self, virt_addr: u64) -> (r: bool)
        ensures
            r == self.holds(virt_addr as int),
    {
        virt_addr >= self.start && virt_addr < self.end
    }

    pub fn get_type(&self) -> (r: VmaType)
        ensures
            r == self.typ_spec(),
    {
        self.typ
    }

    pub fn get_start(&self) -> (r: u64)
        ensures
            r == self.start_spec(),
    {
        self.start
    }

    pub fn get_end(&self) -> (r: u64)
        ensures
            r == self.end_spec(),
    {
        self.end
    }
}

/// Overlap does not depend on the order of the two areas.
pub proof fn law_overlaps_symmetric(a: VMA, b: VMA)
    ensures
        a.overlaps_spec(b) == b.overlaps_spec(a),
{
}

/// Two non-empty areas overlap exactly when some address lies in both.
pub proof fn law_overlaps_iff_shared_address(a: VMA, b: VMA)
    requires
        a.start_spec() < a.end_spec(),
        b.start_spec() < b.end_spec(),
    ensures
        a.overlaps_spec(b) <==> exists|addr: int| a.holds(addr) && b.holds(addr),
{
    if a.overlaps_spec(b) {
        let addr = if a.start_spec() < b.start_spec() {
            b.start_spec() as int
        } else {
            a.start_spec() as int
        };
        assert(a.holds(addr) && b.holds(addr));
    }
}

} // verus!
