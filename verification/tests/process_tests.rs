use hhu_tosr::kernel::syscall_dispatcher::{syscall_for, SyscallFunction, NUM_SYSCALLS};
use hhu_tosr::consts::{USER_CODE_VIRT_START, USER_STACK_VIRT_END, USER_STACK_VIRT_START};
use hhu_tosr::kernel::paging::frames::{PfListAllocator, PhysAddr};
use hhu_tosr::kernel::paging::pages::PageTable;
use hhu_tosr::kernel::processes::process::{
    add_process, add_vma, address_is_stack_vma, dump_all_process_vmas, dump_process_vmas,
    get_app_name, is_process_alive, next_thread_index, process_count, remove_process,
    thread_count_of, Process, ProcessTable,
};
use hhu_tosr::kernel::processes::vma::{VmaType, VMA};
use hhu_tosr::kernel::syscalls::{
    spawn_thread_possible, sys_map_heap, sys_read_app_list, sys_spawn_thread, sys_wait_pid,
};
use hhu_tosr::kernel::threads::scheduler::Scheduler;
use hhu_tosr::kernel::threads::thread::Thread;
use hhu_tosr::library::id_counter::IdCounter;

fn user_thread(tids: &mut IdCounter, name: &str) -> Option<Box<Thread>> {
    Some(Thread::new_user_thread_existing_process(tids, 0x100_0000_0000, Vec::new(), name.to_string(), 0x9000, 0, USER_STACK_VIRT_END))
}

fn spawn_process(table: &mut ProcessTable, pids: &mut IdCounter, name: &str, size: Option<u64>) -> u64 {
    let mut tids = IdCounter::new(1);
    let idle = Thread::new_kernel_thread(&mut tids, 0, Vec::new(), "idle".to_string(), 0);
    let mut scheduler = Scheduler::new(idle);
    let t = user_thread(&mut tids, name);
    scheduler.spawn_process(table, pids, name, size, t)
}

fn table_with(names: &[&str]) -> (ProcessTable, IdCounter, Vec<usize>) {
    let mut table = ProcessTable::new();
    let mut pids = IdCounter::new(1);
    let mut ids = Vec::new();
    for n in names {
        let p = Process::new(&mut pids, n);
        ids.push(p.get_id());
        add_process(&mut table, p);
    }
    (table, pids, ids)
}

#[test]
fn vma_overlap_and_inside() {
    let a = VMA::new(0x1000, 0x3000, VmaType::Code);
    let b = VMA::new(0x2000, 0x4000, VmaType::Heap);
    let c = VMA::new(0x3000, 0x5000, VmaType::Stack);
    assert!(a.overlaps(&b) && b.overlaps(&a));
    assert!(!a.overlaps(&c) && !c.overlaps(&a));
    assert!(a.is_inside(0x1000));
    assert!(!a.is_inside(0x3000));
    assert_eq!(c.get_type(), VmaType::Stack);
    assert_eq!((c.get_start(), c.get_end()), (0x3000, 0x5000));
}

#[test]
fn process_table_basics() {
    let (mut table, _pids, ids) = table_with(&["shell", "hello"]);
    assert_eq!(ids, vec![1, 2]);
    assert_eq!(process_count(&table), 2);
    assert_eq!(get_app_name(&table, 2).unwrap(), "hello");
    assert!(get_app_name(&table, 3).is_none());
    assert!(is_process_alive(&table, 1));
    assert_eq!(next_thread_index(&mut table, 1), 1);
    assert_eq!(next_thread_index(&mut table, 1), 2);
    assert_eq!(thread_count_of(&table, 1), 3);
    assert_eq!(next_thread_index(&mut table, 9), 0);
    remove_process(&mut table, 1);
    assert!(!is_process_alive(&table, 1));
    assert_eq!(process_count(&table), 1);
}

#[test]
fn add_vma_errors() {
    let (mut table, _pids, _ids) = table_with(&["app"]);
    assert_eq!(add_vma(&mut table, 7, VMA::new(0, 0x1000, VmaType::Code)), Err("Process not found"));
    assert_eq!(add_vma(&mut table, 1, VMA::new(0x1000, 0x2000, VmaType::Code)), Ok(()));
    assert_eq!(
        add_vma(&mut table, 1, VMA::new(0x1800, 0x2800, VmaType::Heap)),
        Err("VMA overlaps with existing region")
    );
    assert_eq!(add_vma(&mut table, 1, VMA::new(0x2000, 0x3000, VmaType::Stack)), Ok(()));
    assert!(address_is_stack_vma(&table, 1, 0x2fff));
    assert!(!address_is_stack_vma(&table, 1, 0x1fff));
    let (name, id, vmas) = dump_process_vmas(&table, 1).unwrap();
    assert_eq!((name.as_str(), id, vmas.len()), ("app", 1, 2));
    assert!(dump_process_vmas(&table, 2).is_none());
}

#[test]
fn dump_all_in_pid_order() {
    let (mut table, mut pids, _ids) = table_with(&["a", "b", "c"]);
    remove_process(&mut table, 2);
    let p = Process::new(&mut pids, "d");
    add_process(&mut table, p);
    let all = dump_all_process_vmas(&table);
    let order: Vec<(usize, String)> = all.iter().map(|(n, id, _)| (*id, n.clone())).collect();
    assert_eq!(order, vec![(1, "a".to_string()), (3, "c".to_string()), (4, "d".to_string())]);
}

#[test]
fn spawn_process_setup() {
    let mut table = ProcessTable::new();
    let mut pids = IdCounter::new(1);
    assert_eq!(spawn_process(&mut table, &mut pids, "missing", None), 0);
    assert_eq!(process_count(&table), 0);
    let pid = spawn_process(&mut table, &mut pids, "hello", Some(5000));
    assert_eq!(pid, 1);
    let (_, _, vmas) = dump_process_vmas(&table, 1).unwrap();
    assert_eq!((vmas[0].get_start(), vmas[0].get_end()), (USER_CODE_VIRT_START, USER_CODE_VIRT_START + 8192));
    assert_eq!(vmas[0].get_type(), VmaType::Code);
    assert_eq!((vmas[1].get_start(), vmas[1].get_end()), (USER_STACK_VIRT_START, USER_STACK_VIRT_END));
    // a program that reaches into the stack area is refused and its process removed
    let huge = USER_STACK_VIRT_START - USER_CODE_VIRT_START + 1;
    assert_eq!(spawn_process(&mut table, &mut pids, "huge", Some(huge)), 0);
    assert!(!is_process_alive(&table, 2));
    assert_eq!(sys_wait_pid(&table, 1), 1);
    assert_eq!(sys_wait_pid(&table, 2), 0);
}

#[test]
fn spawned_process_gets_its_first_thread_ready() {
    let mut table = ProcessTable::new();
    let mut pids = IdCounter::new(1);
    let mut tids = IdCounter::new(1);
    let idle = Thread::new_kernel_thread(&mut tids, 0, Vec::new(), "idle".to_string(), 0);
    let mut scheduler = Scheduler::new(idle);
    let t = user_thread(&mut tids, "hello");
    assert_eq!(scheduler.spawn_process(&mut table, &mut pids, "hello", Some(100), t), 1);
    assert_eq!(scheduler.alive_threads(), &vec![(2, 1, "hello".to_string())]);
    assert_eq!(scheduler.thread_count(), 1);
    scheduler.yield_cpu(true, false);
    assert_eq!(scheduler.get_active_pid(), 1);
    // a program that could not be loaded leaves no process and no thread
    assert_eq!(scheduler.spawn_process(&mut table, &mut pids, "broken", Some(100), None), 0);
    assert!(!is_process_alive(&table, 2));
    assert_eq!(process_count(&table), 1);
    assert_eq!(scheduler.thread_count(), 1);
}

#[test]
fn map_heap_syscall_checks() {
    let mut table = ProcessTable::new();
    let mut pids = IdCounter::new(1);
    let pid = spawn_process(&mut table, &mut pids, "app", Some(4096)) as usize;
    let mut frames = PfListAllocator::new();
    frames.free_block(PhysAddr::new(0x10_0000), 64);
    let mut pml4 = PageTable::new(PhysAddr::new(0x9000));
    let heap = 0x200_0000_0000u64;
    assert_eq!(sys_map_heap(&mut table, pid, &mut pml4, &mut frames, heap, 0), 0);
    assert_eq!(sys_map_heap(&mut table, pid, &mut pml4, &mut frames, heap + 1, 4096), 0);
    assert_eq!(sys_map_heap(&mut table, pid, &mut pml4, &mut frames, heap, 100), 0);
    assert_eq!(sys_map_heap(&mut table, pid, &mut pml4, &mut frames, 0x1000, 4096), 0);
    assert_eq!(sys_map_heap(&mut table, pid, &mut pml4, &mut frames, heap, 2 * 4096), 1);
    // the same area again overlaps
    assert_eq!(sys_map_heap(&mut table, pid, &mut pml4, &mut frames, heap, 4096), 0);
    assert_eq!(sys_map_heap(&mut table, pid + 5, &mut pml4, &mut frames, heap + 0x10000, 4096), 0);
    let (_, _, vmas) = dump_process_vmas(&table, pid).unwrap();
    assert_eq!(vmas.len(), 3);
    assert_eq!(vmas[2].get_type(), VmaType::Heap);
}

#[test]
fn spawn_thread_syscall_stacks() {
    let mut table = ProcessTable::new();
    let mut pids = IdCounter::new(1);
    let pid = spawn_process(&mut table, &mut pids, "app", Some(4096)) as usize;
    let mut tids = IdCounter::new(1);
    let idle = Thread::new_kernel_thread(&mut tids, 0, Vec::new(), "idle".to_string(), 0);
    let mut scheduler = Scheduler::new(idle);
    // the first thread's stack is the process's own stack area: a second one fits below
    assert!(spawn_thread_possible(&table, pid));
    let tid = sys_spawn_thread(&mut scheduler, &mut table, &mut tids, pid, 0x4000, "t1".to_string(), Some(vec!["x".to_string()]), 0x9000);
    assert_eq!(tid, 2);
    let (_, _, vmas) = dump_process_vmas(&table, pid).unwrap();
    let last = vmas.last().unwrap();
    assert_eq!(last.get_end(), USER_STACK_VIRT_END - 0x80000);
    assert_eq!(last.get_start(), USER_STACK_VIRT_END - 2 * 0x80000);
    assert!(!spawn_thread_possible(&table, pid + 1));
    assert_eq!(sys_spawn_thread(&mut scheduler, &mut table, &mut tids, pid, 0x4000, "t2".to_string(), None, 0x9000), 0);
    assert_eq!(scheduler.thread_count(), 1);
}

#[test]
fn read_app_list_syscall() {
    let names = vec![b"shell".to_vec(), b"hello".to_vec()];
    assert_eq!(sys_read_app_list(&names, false, 100), (11, None));
    assert_eq!(sys_read_app_list(&names, true, 10), (11, None));
    let (n, bytes) = sys_read_app_list(&names, true, 11);
    assert_eq!(n, 11);
    assert_eq!(bytes.unwrap(), b"shell\nhello".to_vec());
    assert_eq!(sys_read_app_list(&Vec::new(), true, 0).0, 0);
}

#[test]
fn syscall_numbers_select_functions() {
    assert_eq!(syscall_for(0), Some(SyscallFunction::HelloWorld));
    assert_eq!(syscall_for(7), Some(SyscallFunction::MapHeap));
    assert_eq!(syscall_for(24), Some(SyscallFunction::SpawnThread));
    assert_eq!(syscall_for(29), Some(SyscallFunction::MaxMemoryBytes));
    assert_eq!(syscall_for(NUM_SYSCALLS), None);
    assert_eq!(syscall_for(u64::MAX), None);
}

#[test]
fn add_process_counts_every_new_process() {
    let (mut table, mut pids, _) = table_with(&["a", "b"]);
    assert_eq!(process_count(&table), 2);
    // areas set up by hand are taken as they are, even overlapping ones
    let mut p = Process::new(&mut pids, "c");
    p.vmas.push(VMA::new(0x1000, 0x3000, VmaType::Code));
    p.vmas.push(VMA::new(0x2000, 0x4000, VmaType::Heap));
    let pid = p.get_id();
    add_process(&mut table, p);
    assert_eq!(process_count(&table), 3);
    assert!(is_process_alive(&table, pid));
    // while add_vma still refuses a third area that overlaps
    assert!(add_vma(&mut table, pid, VMA::new(0x3000, 0x5000, VmaType::Stack)).is_err());
}
