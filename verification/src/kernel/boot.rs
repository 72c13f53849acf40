use vstd::prelude::*;
use crate::consts::{HEAP_SIZE, PAGE_FRAME_SIZE, PAGE_SIZE};
use crate::kernel::paging::frames::{byte_range, PfListAllocator, PhysAddr};
use crate::kernel::paging::pages::{
    frame_taken, frames_exhausted, init_kernel_tables, page_addr, pages_for, same_slot, target_flags, MapError,
    MapType, PageTable,
};

verus! {

/// Frames of the kernel heap.
pub open spec fn heap_frames() -> int {
    (HEAP_SIZE + PAGE_FRAME_SIZE - 1) / (PAGE_FRAME_SIZE as int)
}

/// Set up the kernel's memory after the frame allocator was filled: build the
/// kernel page tables (with the framebuffer, if any) and take the frames of the
/// kernel heap. Returns the tables and the first address of the heap.
pub fn setup_kernel_memory(
    frames: &mut PfListAllocator,
    framebuffer: Option<(u64, u32, u32)>,
) -> (r: Result<(PageTable, PhysAddr), MapError>)
    requires
        old(frames).wf(),
        old(frames).max_phys() + PAGE_SIZE <= usize::MAX,
        old(frames).max_phys() <= 0x1_0000_0000_0000,
        framebuffer matches Some(fb) ==> {
            &&& fb.1 * fb.2 <= u32::MAX
            &&& fb.1 * fb.2 + PAGE_SIZE <= usize::MAX
            &&& pages_for(fb.1 * fb.2) > 0 ==> fb.0 + (pages_for(fb.1 * fb.2) - 1) * PAGE_SIZE
                <= u64::MAX
        },
    ensures
        final(frames).wf(),
        final(frames).free_set().subset_of(old(frames).free_set()),
        match r {
            Ok((t, heap)) => {
                let kernel_pages = pages_for(old(frames).max_phys() as int);
                &&& t.wf()
                &&& frame_taken(t.frame_spec(), old(frames).free_set(), final(frames).free_set())
                &&& forall|i: int|
                    0 < i < kernel_pages && !(framebuffer matches Some(fb) && exists|j: int|
                        0 <= j < pages_for(fb.1 * fb.2) && same_slot(
                            page_addr(0, i) as u64,
                            page_addr(fb.0, j) as u64,
                            4,
                        )) ==> #[trigger] t.leaf_ok(
                        MapType::Identity,
                        0,
                        i,
                        target_flags(true),
                        old(frames).free_set(),
                        final(frames).free_set(),
                    )
                &&& framebuffer matches Some(fb) ==> forall|j: int|
                    0 <= j < pages_for(fb.1 * fb.2) && page_addr(fb.0, j) != 0 ==> #[trigger] t.leaf_ok(
                        MapType::Identity,
                        fb.0,
                        j,
                        target_flags(true),
                        old(frames).free_set(),
                        final(frames).free_set(),
                    )
                &&& (heap@ as int) % (PAGE_FRAME_SIZE as int) == 0
                &&& byte_range(heap@ as int, heap@ + heap_frames() * PAGE_FRAME_SIZE).subset_of(
                    old(frames).free_set(),
                )
                &&& byte_range(heap@ as int, heap@ + heap_frames() * PAGE_FRAME_SIZE).disjoint(
                    final(frames).free_set(),
                )
            },
            Err(_) => frames_exhausted(*final(frames)) || forall|k: int|
                0 <= k < final(frames).blocks().len() ==> (#[trigger] final(frames).blocks()[k]).size
                    < heap_frames() * PAGE_FRAME_SIZE,
        },
{
    let pml4 = match init_kernel_tables(frames, framebuffer) {
        Ok(t) => t,
        Err(e) => {
            return Err(e);
        },
    };
    let num_frames = (HEAP_SIZE + PAGE_FRAME_SIZE - 1) / PAGE_FRAME_SIZE;
    let ghost before = frames.free_set();
    match frames.alloc_block(num_frames) {
        Some(heap) => {
            assert(byte_range(heap@ as int, heap@ + heap_frames() * PAGE_FRAME_SIZE).disjoint(
                frames.free_set(),
            ));
            proof {
                let kernel_pages = pages_for(old(frames).max_phys() as int);
                assert(frames.free_set().subset_of(before));
                assert forall|i: int|
                    0 < i < kernel_pages && !(framebuffer matches Some(fb) && exists|j: int|
                        0 <= j < pages_for(fb.1 * fb.2) && same_slot(
                            page_addr(0, i) as u64,
                            page_addr(fb.0, j) as u64,
                            4,
                        )) implies #[trigger] pml4.leaf_ok(
                        MapType::Identity,
                        0,
                        i,
                        target_flags(true),
                        old(frames).free_set(),
                        frames.free_set(),
                    ) by {
                    assert(pml4.leaf_ok(MapType::Identity, 0, i, target_flags(true), old(frames).free_set(), before));
                }
                if let Some(fb) = framebuffer {
                    assert forall|j: int|
                        0 <= j < pages_for(fb.1 * fb.2) && page_addr(fb.0, j) != 0 implies #[trigger] pml4.leaf_ok(
                            MapType::Identity,
                            fb.0,
                            j,
                            target_flags(true),
                            old(frames).free_set(),
                            frames.free_set(),
                        ) by {
                        assert(pml4.leaf_ok(MapType::Identity, fb.0, j, target_flags(true), old(frames).free_set(), before));
                    }
                }
            }
            Ok((pml4, heap))
        },
        None => Err(MapError::OutOfMemory),
    }
}

} // verus!
