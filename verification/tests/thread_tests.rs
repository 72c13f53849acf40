use hhu_tosr::consts::USER_STACK_VIRT_END;
use hhu_tosr::kernel::processes::process::{is_process_alive, ProcessTable};
use hhu_tosr::kernel::threads::scheduler::{KillOutcome, Scheduler};
use hhu_tosr::kernel::threads::thread::{
    next_id, Thread, DUMMY_RETURN_ADDRESS, INITIAL_RFLAGS, KERNEL_STACK_ENTRIES, USER_CODE_SELECTOR,
    USER_DATA_SELECTOR, USER_RFLAGS,
};
use hhu_tosr::library::id_counter::IdCounter;

fn kernel_thread(ids: &mut IdCounter, name: &str) -> Box<Thread> {
    Thread::new_kernel_thread(ids, 0x1000, Vec::new(), name.to_string(), 0x7000)
}

fn scheduler_with_two() -> (Scheduler, IdCounter) {
    let mut ids = IdCounter::new(1);
    let idle = kernel_thread(&mut ids, "idle");
    let mut s = Scheduler::new(idle);
    s.ready(kernel_thread(&mut ids, "a"));
    s.ready(kernel_thread(&mut ids, "b"));
    (s, ids)
}

#[test]
fn thread_ids_count_up() {
    let mut ids = IdCounter::new(5);
    assert_eq!(next_id(&mut ids), 5);
    assert_eq!(next_id(&mut ids), 6);
    let t = kernel_thread(&mut ids, "k");
    assert_eq!(t.get_id(), 7);
    assert_eq!(t.get_pid(), 0);
    assert!(t.is_kernel_thread());
    assert_eq!(t.get_name(), "k");
    assert_eq!(t.get_pml4(), 0x7000);
    assert_eq!(t.get_entry(), 0x1000);
    assert_eq!(t.kernel_stack().len(), KERNEL_STACK_ENTRIES);
}

#[test]
fn kernel_stack_start_frame() {
    let mut ids = IdCounter::new(1);
    let mut t = kernel_thread(&mut ids, "k");
    t.prepare_kernel_stack(0x1234, 0x5678, 0x10000);
    let st = t.kernel_stack();
    let n = st.len();
    assert_eq!(st[n - 1], DUMMY_RETURN_ADDRESS);
    assert_eq!(st[n - 2], 0x1234);
    assert_eq!(st[n - 16], 0x5678);
    assert_eq!(st[n - 17], 0);
    assert_eq!(st[n - 18], INITIAL_RFLAGS);
    assert_eq!(st[n - 19], 0);
    assert_eq!(t.get_stack_ptr(), 0x10000 - 8 * 18);
}

#[test]
fn user_stack_plan_and_frame() {
    let mut ids = IdCounter::new(1);
    let args = vec!["ab".to_string(), "cde".to_string()];
    let mut t = Thread::new_user_thread_existing_process(&mut ids, 0x4000, args, "u".to_string(), 0x9000, 3, USER_STACK_VIRT_END);
    assert!(!t.is_kernel_thread());
    assert_eq!(t.get_pid(), 3);
    let plan = t.plan_user_stack();
    assert_eq!(plan.string_addrs, vec![USER_STACK_VIRT_END - 5, USER_STACK_VIRT_END - 3]);
    let below = USER_STACK_VIRT_END - 5 - 32;
    assert_eq!(plan.array_base, below & !0xf);
    assert_eq!(plan.array_base % 16, 0);
    let sp = t.prepare_user_mode(plan.array_base, 0x20000);
    assert_eq!(sp, 0x20000 - 7 * 8);
    let st = t.kernel_stack();
    let n = st.len();
    assert_eq!(
        st[n - 7..].to_vec(),
        vec![2, plan.array_base, 0x4000, USER_CODE_SELECTOR, USER_RFLAGS, plan.array_base, USER_DATA_SELECTOR]
    );
}

#[test]
fn scheduler_round_robin() {
    let (mut s, _) = scheduler_with_two();
    assert_eq!(s.get_active_tid(), 1);
    assert_eq!(s.thread_count(), 2);
    let o = s.yield_cpu(true, false);
    assert!(o.switched);
    assert_eq!(o.freed_pml4, None);
    assert_eq!(s.get_active_tid(), 2);
    s.yield_cpu(true, false);
    assert_eq!(s.get_active_tid(), 3);
    s.yield_cpu(true, false);
    assert_eq!(s.get_active_tid(), 1);
    // not running, or the allocator is locked: nothing happens
    assert!(!s.yield_cpu(false, false).switched);
    assert!(!s.yield_cpu(true, true).switched);
    assert_eq!(s.get_active_tid(), 1);
}

#[test]
fn scheduler_alone_does_not_switch() {
    let mut ids = IdCounter::new(1);
    let mut s = Scheduler::new(kernel_thread(&mut ids, "idle"));
    let o = s.yield_cpu(true, false);
    assert!(!o.switched);
    assert_eq!(s.get_active_tid(), 1);
    assert_eq!(s.get_active_pid(), 0);
}

#[test]
fn scheduler_exit_frees_later() {
    let (mut s, _) = scheduler_with_two();
    let mut table = ProcessTable::new();
    s.yield_cpu(true, false);
    assert_eq!(s.get_active_tid(), 2);
    let o = s.exit(&mut table);
    assert!(o.switched);
    assert_eq!(o.freed_pml4, None);
    assert_eq!(s.get_active_tid(), 3);
    assert!(!s.is_thread_alive(2));
    assert!(s.is_thread_alive(3));
    assert_eq!(s.thread_count(), 1);
    // the kernel thread's address space is freed at the next switch
    let o = s.yield_cpu(true, false);
    assert_eq!(o.freed_pml4, Some(0x7000));
    assert_eq!(s.get_active_tid(), 1);
}

#[test]
fn scheduler_listing() {
    let (s, _) = scheduler_with_two();
    assert_eq!(
        String::from_utf8(s.to_string()).unwrap(),
        "processes:\n   tid:2, pid:0, name:a\n   tid:3, pid:0, name:b"
    );
    let mut ids = IdCounter::new(1);
    let empty = Scheduler::new(kernel_thread(&mut ids, "idle"));
    assert_eq!(empty.to_string(), b"processes:\n".to_vec());
}

#[test]
fn scheduler_kill_ready_and_active() {
    let (mut s, _) = scheduler_with_two();
    let mut table = ProcessTable::new();
    match s.kill(&mut table, 3) {
        KillOutcome::Removed { freed_pml4 } => assert_eq!(freed_pml4, None),
        KillOutcome::ExitedActive(_) => panic!("thread 3 was not active"),
    }
    assert_eq!(s.thread_count(), 1);
    assert!(!s.is_thread_alive(3));
    // an unknown thread: nothing changes
    assert!(matches!(s.kill(&mut table, 42), KillOutcome::Removed { freed_pml4: None }));
    s.yield_cpu(true, false);
    assert_eq!(s.get_active_tid(), 2);
    match s.kill(&mut table, 2) {
        KillOutcome::ExitedActive(o) => assert!(o.switched),
        KillOutcome::Removed { .. } => panic!("thread 2 was active"),
    }
    assert_eq!(s.get_active_tid(), 1);
    assert_eq!(s.thread_count(), 0);
}

#[test]
fn killing_last_thread_removes_process() {
    let mut table = ProcessTable::new();
    let mut pids = IdCounter::new(1);
    let mut ids = IdCounter::new(1);
    let mut s = Scheduler::new(kernel_thread(&mut ids, "idle"));
    let t = Thread::new_user_thread_existing_process(&mut ids, 0x4000, Vec::new(), "hello".to_string(), 0xa000, 0, USER_STACK_VIRT_END);
    let pid = s.spawn_process(&mut table, &mut pids, "hello", Some(100), Some(t)) as usize;
    assert_eq!(pid, 1);
    assert_eq!(s.alive_threads()[0], (2, pid, "hello".to_string()));
    match s.kill(&mut table, 2) {
        KillOutcome::Removed { freed_pml4 } => assert_eq!(freed_pml4, Some(0xa000)),
        KillOutcome::ExitedActive(_) => panic!("thread 2 was not active"),
    }
    assert!(!is_process_alive(&table, pid));
}

#[test]
fn block_and_switch() {
    let (mut s, _) = scheduler_with_two();
    let blocked = s.prepare_block();
    assert_eq!(blocked.get_id(), 1);
    let back = s.switch_from_blocked_thread(blocked).unwrap();
    assert_eq!(back.get_id(), 1);
    assert_eq!(s.get_active_tid(), 2);
    s.ready_after_block(back);
    assert_eq!(s.thread_count(), 2);
    s.yield_cpu(true, false);
    s.yield_cpu(true, false);
    assert_eq!(s.get_active_tid(), 1);

    let mut ids = IdCounter::new(1);
    let mut alone = Scheduler::new(kernel_thread(&mut ids, "idle"));
    let b = alone.prepare_block();
    assert!(alone.switch_from_blocked_thread(b).is_none());
    assert_eq!(alone.get_active_tid(), 1);
}

#[test]
fn scheduler_knows_its_threads_and_kill_counts_one() {
    let (mut s, _) = scheduler_with_two();
    assert!(s.knows_thread(1));
    assert!(s.knows_thread(3));
    assert!(!s.knows_thread(4));
    let mut table = ProcessTable::new();
    let before = s.thread_count();
    s.kill(&mut table, 2);
    assert_eq!(s.thread_count(), before - 1);
    assert!(!s.knows_thread(2));
    s.kill(&mut table, 2);
    assert_eq!(s.thread_count(), before - 1);
}

#[test]
fn killing_a_process_kills_its_threads() {
    let mut table = ProcessTable::new();
    let mut pids = IdCounter::new(1);
    let mut ids = IdCounter::new(1);
    let mut s = Scheduler::new(kernel_thread(&mut ids, "idle"));
    let t = Thread::new_user_thread_existing_process(&mut ids, 0x4000, Vec::new(), "app".to_string(), 0xa000, 0, USER_STACK_VIRT_END);
    let pid = s.spawn_process(&mut table, &mut pids, "app", Some(100), Some(t)) as usize;
    let second = Thread::new_user_thread_existing_process(&mut ids, 0x4000, Vec::new(), "app-2".to_string(), 0xa000, pid, USER_STACK_VIRT_END - 0x80000);
    let second_id = second.get_id();
    s.ready(second);
    s.ready(kernel_thread(&mut ids, "other"));
    assert_eq!(s.thread_count(), 3);
    assert!(s.knows_thread(second_id));
    let outcome = s.kill_process(&mut table, pid);
    assert_eq!(outcome.killed, 2);
    // the process is gone: its address space is handed back to be freed
    assert_eq!(outcome.freed_pml4, Some(0xa000));
    // the killed threads are gone from the ready queue too
    assert!(!s.knows_thread(second_id));
    assert_eq!(s.thread_count(), 1);
    assert_eq!(s.alive_threads()[0].2, "other".to_string());
    assert!(!is_process_alive(&table, pid));
    // nothing left to kill
    let again = s.kill_process(&mut table, pid);
    assert_eq!((again.killed, again.freed_pml4), (0, None));
}
