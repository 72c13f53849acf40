use hhu_tosr::consts::{PAGE_FRAME_SIZE, PAGE_SIZE, USER_CODE_VIRT_START, USER_STACK_VIRT_END};
use hhu_tosr::kernel::allocator::list::{align_up, LinkedListAllocator};
use hhu_tosr::kernel::boot::setup_kernel_memory;
use hhu_tosr::kernel::paging::frames::{PfListAllocator, PhysAddr};
use hhu_tosr::kernel::paging::pages::{
    check_and_grow_user_stack, init_kernel_tables, map_user_app, map_user_heap, map_user_stack,
    pages_for_bytes, MapError, MapType, PageFlags, PageTable, PageTableEntry, ALL_FLAGS, PRESENT,
    USER, WRITEABLE,
};
use hhu_tosr::kernel::processes::process::{add_process, add_vma, Process, ProcessTable};
use hhu_tosr::kernel::processes::vma::{VmaType, VMA};
use hhu_tosr::library::id_counter::IdCounter;

const MB: u64 = 0x10_0000;

fn frames_with(start: u64, count: usize) -> PfListAllocator {
    let mut frames = PfListAllocator::new();
    frames.free_block(PhysAddr::new(start), count);
    frames
}

/// The physical frame allocator test of the kernel, run on a list of 1024 frames.
#[test]
fn test_phys_allocator() {
    let mut frames = frames_with(MB, 1024);
    let mut addrs = Vec::new();
    for i in 0..8 {
        let a = frames.alloc_block(1).expect("alloc_block(1) failed too early");
        assert_eq!(a.raw() % PAGE_FRAME_SIZE as u64, 0);
        for j in 0..i {
            assert_ne!(addrs[j], a.raw());
        }
        addrs.push(a.raw());
    }
    let big = frames.alloc_block(16).expect("alloc_block(16) failed");
    assert_eq!(big.raw() % PAGE_FRAME_SIZE as u64, 0);

    frames.free_block(PhysAddr::new(addrs[1]), 1);
    frames.free_block(PhysAddr::new(addrs[3]), 1);
    frames.free_block(PhysAddr::new(addrs[2]), 1);
    let list = frames.dump_free_list();
    assert!(list.iter().any(|r| r.start == addrs[1] && r.frames == 3));
    for k in [0usize, 4, 5, 6, 7] {
        frames.free_block(PhysAddr::new(addrs[k]), 1);
    }
    frames.free_block(big, 16);

    let mut n = 0usize;
    let mut temp = Vec::new();
    while n < 256 {
        match frames.alloc_block(1) {
            Some(a) => {
                temp.push(a);
                n += 1;
            }
            None => break,
        }
    }
    assert_eq!(n, 256);
    for a in temp {
        frames.free_block(a, 1);
    }
    let list = frames.dump_free_list();
    assert_eq!(list.len(), 1);
    assert_eq!(list[0].start, MB);
    assert_eq!(list[0].frames, 1024);
    assert_eq!(list[0].bytes, 1024 * 4096);
}

#[test]
fn frames_first_fit_and_coalescing() {
    let mut frames = PfListAllocator::new();
    frames.free_block(PhysAddr::new(0x10_0000), 2);
    frames.free_block(PhysAddr::new(0x20_0000), 8);
    assert_eq!(frames.get_max_phys_addr().raw(), 0x20_0000 + 8 * 4096);
    // too large for the first block: the second one serves
    let a = frames.alloc_block(4).unwrap();
    assert_eq!(a.raw(), 0x20_0000);
    // the first block fits two frames
    let b = frames.alloc_block(2).unwrap();
    assert_eq!(b.raw(), 0x10_0000);
    assert!(frames.alloc_block(5).is_none());
    // freeing the neighbour merges the blocks again
    frames.free_block(a, 4);
    let list = frames.dump_free_list();
    assert_eq!(list.len(), 1);
    assert_eq!(list[0].start, 0x20_0000);
    assert_eq!(list[0].end, 0x20_0000 + 8 * 4096);
}

#[test]
fn frames_alloc_then_free_restores_list() {
    let mut frames = frames_with(0x40_0000, 4);
    let a = frames.alloc_block(4).unwrap();
    assert!(frames.dump_free_list().is_empty());
    assert!(frames.alloc_block(1).is_none());
    frames.free_block(a, 4);
    let list = frames.dump_free_list();
    assert_eq!((list[0].start, list[0].frames), (0x40_0000, 4));
}

#[test]
fn heap_allocator_demo_scenario() {
    let mut heap = LinkedListAllocator::new(0x1000, 0x1000);
    heap.init();
    let (start, end, list) = heap.dump_free_list();
    assert_eq!((start, end), (0x1000, 0x2000));
    assert_eq!(list.len(), 1);
    assert_eq!((list[0].start, list[0].size), (0x1000, 0x1000));

    let s1 = heap.allocate(8, 4);
    let s2 = heap.allocate(8, 4);
    assert_ne!(s1, 0);
    assert_ne!(s2, 0);
    assert_ne!(s1, s2);
    assert_eq!(s1 % 8, 0);
    heap.dealloc(s1, 8, 4);
    heap.dealloc(s2, 8, 4);
    let (_, _, list) = heap.dump_free_list();
    assert!(list.len() >= 1);
}

#[test]
fn heap_allocator_out_of_memory_gives_null() {
    let mut heap = LinkedListAllocator::new(0x1000, 64);
    heap.init();
    assert_eq!(heap.allocate(128, 8), 0);
    let a = heap.allocate(64, 8);
    assert_eq!(a, 0x1000);
    assert_eq!(heap.allocate(16, 8), 0);
    heap.dealloc(a, 64, 8);
    assert_eq!(heap.allocate(16, 8), 0x1000);
}

#[test]
fn align_up_rounds_to_multiples() {
    assert_eq!(align_up(0, 8), 0);
    assert_eq!(align_up(1, 8), 8);
    assert_eq!(align_up(8, 8), 8);
    assert_eq!(align_up(4097, 4096), 8192);
}

#[test]
fn page_table_entry_roundtrip() {
    let mut e = PageTableEntry::empty();
    assert!(!e.present());
    e.set(PhysAddr::new(0x5000), PageFlags::user_flags());
    assert_eq!(e.raw(), 0x5007);
    assert!(e.present());
    assert_eq!(e.get_addr().raw(), 0x5000);
    assert_eq!(e.get_flags().bits(), PRESENT | WRITEABLE | USER);
    e.set_flags(PageFlags::kernel_flags());
    assert_eq!(e.raw(), 0x5003);
    e.set_addr(PhysAddr::new(0x7000));
    assert_eq!(e.raw(), 0x7003);
    assert_eq!(PageFlags::from_bits_truncate(0xffff).bits(), ALL_FLAGS);
    assert!(PageFlags::user_flags().contains(PageFlags::kernel_flags()));
    assert!(!PageFlags::kernel_flags().contains(PageFlags::user_flags()));
}

#[test]
fn map_identity_and_count() {
    let mut frames = frames_with(MB, 64);
    let mut pml4 = PageTable::new(PhysAddr::new(0x9000));
    let n = pml4.map(&mut frames, 0, 4, MapType::Identity, true).unwrap();
    // page 0 stays unmapped
    assert_eq!(n, 3);
    // one frame for each of PDPT, PD and PT
    let free: usize = frames.dump_free_list().iter().map(|r| r.frames).sum();
    assert_eq!(free, 61);
    assert_eq!(pml4.frame().raw(), 0x9000);
}

#[test]
fn map_allocate_and_contiguous() {
    let mut frames = frames_with(MB, 64);
    let mut pml4 = PageTable::new(PhysAddr::new(0x9000));
    assert_eq!(pml4.map(&mut frames, 0x40_0000, 2, MapType::Allocate, false), Ok(2));
    let free: usize = frames.dump_free_list().iter().map(|r| r.frames).sum();
    assert_eq!(free, 64 - 3 - 2);
    assert_eq!(
        pml4.map(&mut frames, 0x60_0000, 3, MapType::Contiguous(PhysAddr::new(0x80_0000)), false),
        Ok(3)
    );
}

#[test]
fn map_reports_exhausted_frames() {
    let mut frames = frames_with(MB, 2);
    let mut pml4 = PageTable::new(PhysAddr::new(0x9000));
    assert_eq!(pml4.map(&mut frames, 0x1000, 1, MapType::Identity, true), Err(MapError::OutOfMemory));
}

#[test]
fn user_heap_stack_and_app_mapping() {
    let mut frames = frames_with(MB, 128);
    let mut pml4 = PageTable::new(PhysAddr::new(0x9000));
    assert_eq!(map_user_stack(&mut pml4, &mut frames, USER_STACK_VIRT_END - 4096), Ok(USER_STACK_VIRT_END));
    assert_eq!(map_user_heap(&mut pml4, &mut frames, 0x200_0000_0000, 3 * 4096 + 1), Ok(()));
    let phys = map_user_app(&mut pml4, &mut frames, 5000).unwrap();
    assert_eq!(phys.raw() % 4096, 0);
    assert_eq!(pages_for_bytes(5000), 2);
    assert_eq!(pages_for_bytes(4096), 1);
    assert_eq!(pages_for_bytes(0), 0);
    let _ = USER_CODE_VIRT_START;
    let _ = PAGE_SIZE;
}

#[test]
fn stack_grows_only_in_stack_areas() {
    let mut processes = ProcessTable::new();
    let mut pids = IdCounter::new(1);
    let p = Process::new(&mut pids, "app");
    let pid = p.get_id();
    add_process(&mut processes, p);
    add_vma(&mut processes, pid, VMA::new(0x3000_0000, 0x3001_0000, VmaType::Stack)).unwrap();
    let mut frames = frames_with(MB, 64);
    let mut pml4 = PageTable::new(PhysAddr::new(0x9000));
    assert_eq!(check_and_grow_user_stack(&processes, pid, &mut pml4, &mut frames, 0x3000_8123), Ok(true));
    assert_eq!(check_and_grow_user_stack(&processes, pid, &mut pml4, &mut frames, 0x2000_0000), Ok(false));
    assert_eq!(check_and_grow_user_stack(&processes, pid + 1, &mut pml4, &mut frames, 0x3000_8123), Ok(false));
}

#[test]
fn kernel_tables_and_heap() {
    let mut frames = frames_with(0x100_0000, 0x8000);
    let tables = init_kernel_tables(&mut frames, Some((0xfd00_0000, 4096, 2))).unwrap();
    assert_eq!(tables.frame().raw() % 4096, 0);
    let mut frames = frames_with(0x100_0000, 0x8000);
    let (_tables, heap) = setup_kernel_memory(&mut frames, None).unwrap();
    assert_eq!(heap.raw() % 4096, 0);
    let mut small = frames_with(0x100_0000, 16);
    assert!(setup_kernel_memory(&mut small, None).is_err());
}

#[test]
fn freed_frames_allocate_again() {
    let mut f = frames_with(0x10_0000, 4);
    let a = f.alloc_block(2).unwrap();
    let b = f.alloc_block(2).unwrap();
    assert_eq!(a.raw(), 0x10_0000);
    assert_eq!(b.raw(), 0x10_2000);
    assert!(f.alloc_block(1).is_none());
    f.free_block(a, 2);
    assert_eq!(f.alloc_block(2).map(|p| p.raw()), Some(0x10_0000));
}

#[test]
fn heap_rest_too_small_for_a_node_stays_allocated() {
    let mut heap = LinkedListAllocator::new(0x1000, 24);
    heap.init();
    assert_eq!(heap.allocate(16, 8), 0x1000);
    assert!(heap.dump_free_list().2.is_empty());
    let mut roomy = LinkedListAllocator::new(0x1000, 32);
    roomy.init();
    assert_eq!(roomy.allocate(16, 8), 0x1000);
    let list = roomy.dump_free_list().2;
    assert_eq!(list.len(), 1);
    assert_eq!((list[0].start, list[0].size), (0x1010, 16));
}

#[test]
fn max_phys_addr_is_largest_freed_end() {
    let mut frames = PfListAllocator::new();
    assert_eq!(frames.get_max_phys_addr().raw(), 0);
    frames.free_block(PhysAddr::new(0x1000), 2);
    assert_eq!(frames.get_max_phys_addr().raw(), 0x3000);
    frames.free_block(PhysAddr::new(0x10000), 1);
    assert_eq!(frames.get_max_phys_addr().raw(), 0x11000);
    // allocations leave it alone, and so does freeing below it
    let a = frames.alloc_block(1).unwrap();
    assert_eq!(frames.get_max_phys_addr().raw(), 0x11000);
    frames.free_block(a, 1);
    frames.free_block(PhysAddr::new(0x5000), 1);
    assert_eq!(frames.get_max_phys_addr().raw(), 0x11000);
}

#[test]
fn freeing_the_middle_frame_joins_its_neighbours() {
    let mut frames = PfListAllocator::new();
    frames.free_block(PhysAddr::new(0x1000), 1);
    frames.free_block(PhysAddr::new(0x3000), 1);
    frames.free_block(PhysAddr::new(0x9000), 1);
    assert_eq!(frames.dump_free_list().len(), 3);
    frames.free_block(PhysAddr::new(0x2000), 1);
    let list = frames.dump_free_list();
    assert_eq!(list.len(), 2);
    assert_eq!((list[0].start, list[0].end, list[0].frames), (0x1000, 0x4000, 3));
    assert_eq!((list[1].start, list[1].frames), (0x9000, 1));
}
