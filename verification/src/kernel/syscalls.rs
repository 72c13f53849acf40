use vstd::prelude::*;
use crate::consts::{PAGE_SIZE, STACK_SIZE, USER_CODE_VIRT_START, USER_STACK_VIRT_END, USER_STACK_VIRT_START};
use crate::kernel::paging::frames::PfListAllocator;
use crate::kernel::paging::pages::{map_user_heap, pages_for, PageTable};
use crate::kernel::processes::process::{add_vma, is_process_alive, next_thread_index, ProcessTable};
use crate::kernel::processes::vma::{VmaType, VMA};
use crate::kernel::threads::scheduler::Scheduler;
use crate::kernel::threads::thread::Thread;
use crate::library::id_counter::IdCounter;
use crate::library::text::views;

verus! {

/// The area `v` shares an address with `[start, end)`.
pub open spec fn overlaps_range(v: VMA, start: int, end: int) -> bool {
    v.start_spec() < end && start < v.end_spec()
}

/// A heap of `size` bytes from `start` may be mapped for a user process: a
/// non-empty run of whole pages between the program code and the stack.
pub open spec fn heap_request_ok(start: u64, size: usize) -> bool {
    &&& size != 0
    &&& start % (PAGE_SIZE as u64) == 0
    &&& size % PAGE_SIZE == 0
    &&& start + size <= u64::MAX
    &&& start >= USER_CODE_VIRT_START
    &&& start + size <= USER_STACK_VIRT_START
}

/// Map a heap of `user_heap_size` bytes at `user_heap_start` for process `pid`
/// into its tables `pml4`: the request is checked, recorded as a heap area of the
/// process, and the pages get new frames. Returns 1 on success, else 0.
pub fn sys_map_heap(
    processes: &mut ProcessTable,
    pid: usize,
    pml4: &mut PageTable,
    frames: &mut PfListAllocator,
    user_heap_start: u64,
    user_heap_size: usize,
) -> (r: u64)
    requires
        old(processes).wf(),
        old(pml4).wf(),
        old(frames).wf(),
        user_heap_size + PAGE_SIZE <= usize::MAX,
    ensures
        final(processes).wf(),
        old(processes).vmas_apart() ==> final(processes).vmas_apart(),
        final(pml4).wf(),
        final(frames).wf(),
        r == 0 || r == 1,
        !heap_request_ok(user_heap_start, user_heap_size) ==> r == 0 && final(processes).view() == old(
            processes,
        ).view() && *final(pml4) == *old(pml4) && *final(frames) == *old(frames),
        heap_request_ok(user_heap_start, user_heap_size) ==> {
            let accepted = old(processes).view().contains_key(pid) && !exists|i: int|
                0 <= i < old(processes).view()[pid].vmas_spec().len() && overlaps_range(
                    #[trigger] old(processes).view()[pid].vmas_spec()[i],
                    user_heap_start as int,
                    user_heap_start + user_heap_size,
                );
            let vmas = final(processes).view()[pid].vmas_spec();
            &&& !accepted ==> r == 0 && final(processes).view() == old(processes).view() && *final(pml4)
                == *old(pml4) && *final(frames) == *old(frames)
            &&& accepted ==> {
                &&& vmas.drop_last() == old(processes).view()[pid].vmas_spec()
                &&& vmas.len() == old(processes).view()[pid].vmas_spec().len() + 1
                &&& vmas.last().start_spec() == user_heap_start
                &&& vmas.last().end_spec() == user_heap_start + user_heap_size
                &&& vmas.last().typ_spec() == VmaType::Heap
            }
            &&& accepted && r == 1 ==> forall|i: int|
                0 <= i < pages_for(user_heap_size as int) ==> #[trigger] final(pml4).leaf_ok(
                    crate::kernel::paging::pages::MapType::Allocate,
                    user_heap_start,
                    i,
                    crate::kernel::paging::pages::target_flags(false),
                    old(frames).free_set(),
                    final(frames).free_set(),
                )
            &&& accepted && r == 0 ==> crate::kernel::paging::pages::frames_exhausted(*final(frames))
        },
{
    if user_heap_size == 0 {
        return 0;
    }
    if user_heap_start % PAGE_SIZE as u64 != 0 || user_heap_size % PAGE_SIZE != 0 {
        return 0;
    }
    let user_heap_end = match user_heap_start.checked_add(user_heap_size as u64) {
        Some(end) => end,
        None => {
            return 0;
        },
    };
    if user_heap_start < USER_CODE_VIRT_START || user_heap_end > USER_STACK_VIRT_START {
        return 0;
    }
    let heap_vma = VMA::new(user_heap_start, user_heap_end, VmaType::Heap);
    if add_vma(processes, pid, heap_vma).is_err() {
        return 0;
    }
    assert(pages_for(user_heap_size as int) * PAGE_SIZE == user_heap_size) by (nonlinear_arith)
        requires
            user_heap_size % 4096 == 0,
    ;
    assert(user_heap_start != 0);
    match map_user_heap(pml4, frames, user_heap_start, user_heap_size) {
        Ok(_) => {
            proof {
                assert forall|i: int| 0 <= i < pages_for(user_heap_size as int) implies
                    crate::kernel::paging::pages::page_addr(user_heap_start, i) != 0 by {
                    assert(i >= 0);
                }
            }
            1
        },
        Err(_) => 0,
    }
}

/// Whether process `pid` is still alive: 1 if so, else 0.
pub fn sys_wait_pid(processes: &ProcessTable, pid: u64) -> (r: u64)
    ensures
        r == if processes.view().contains_key(pid as usize) { 1u64 } else { 0u64 },
{
    if is_process_alive(processes, pid as usize) {
        1
    } else {
        0
    }
}

/// The stack of the thread with index `thread_idx` of a process: the stacks lie
/// one below the other from `USER_STACK_VIRT_END` down.
pub open spec fn thread_stack(thread_idx: int) -> (int, int) {
    let end = USER_STACK_VIRT_END - thread_idx * STACK_SIZE;
    (end - STACK_SIZE, end)
}

/// A new thread of process `pid` can get its stack: the process exists, the stack
/// lies above address 0 and overlaps none of the process's areas.
pub open spec fn spawn_thread_ok(processes: ProcessTable, pid: usize) -> bool {
    &&& processes.view().contains_key(pid)
    &&& {
        let p = processes.view()[pid];
        let (start, end) = thread_stack(p.thread_count_spec() as int);
        &&& p.thread_count_spec() < usize::MAX
        &&& start >= 0
        &&& !exists|i: int|
            0 <= i < p.vmas_spec().len() && overlaps_range(#[trigger] p.vmas_spec()[i], start, end)
    }
}

/// Whether a new thread of process `pid` can get its stack.
pub fn spawn_thread_possible(processes: &ProcessTable, pid: usize) -> (r: bool)
    ensures
        r == spawn_thread_ok(*processes, pid),
{
    match crate::kernel::processes::process::dump_process_vmas(processes, pid) {
        None => false,
        Some((_, _, vmas)) => {
            let count = crate::kernel::processes::process::thread_count_of(processes, pid);
            if count == usize::MAX {
                return false;
            }
            if count as u64 > (USER_STACK_VIRT_END - STACK_SIZE as u64) / STACK_SIZE as u64 {
                proof {
                    assert(count * STACK_SIZE > USER_STACK_VIRT_END - STACK_SIZE) by (nonlinear_arith)
                        requires
                            count > (USER_STACK_VIRT_END - STACK_SIZE) / (STACK_SIZE as int),
                    ;
                }
                return false;
            }
            proof {
                assert(count * STACK_SIZE <= USER_STACK_VIRT_END - STACK_SIZE) by (nonlinear_arith)
                    requires
                        count <= (USER_STACK_VIRT_END - STACK_SIZE) / (STACK_SIZE as int),
                ;
            }
            let end = USER_STACK_VIRT_END - count as u64 * STACK_SIZE as u64;
            let stack = VMA::new(end - STACK_SIZE as u64, end, VmaType::Stack);
            let mut i: usize = 0;
            while i < vmas.len()
                invariant
                    i <= vmas@.len(),
                    forall|j: int| 0 <= j < i ==> !(#[trigger] vmas@[j]).overlaps_spec(stack),
                    stack.start_spec() == end - STACK_SIZE,
                    stack.end_spec() == end,
                    vmas@ == processes.view()[pid].vmas_spec(),
                    processes.view().contains_key(pid),
                    count == processes.view()[pid].thread_count_spec(),
                    end == thread_stack(count as int).1,
                decreases vmas@.len() - i,
            {
                if vmas[i].overlaps(&stack) {
                    assert(overlaps_range(vmas@[i as int], thread_stack(count as int).0, thread_stack(count as int).1));
                    return false;
                }
                i = i + 1;
            }
            true
        },
    }
}

/// Start a new user thread of process `pid` at `entry`, in the address space
/// `pml4`, with its own stack below those of the process's earlier threads; its
/// name is `name` and its arguments `args` (`None`: they could not be read, and no
/// thread starts). Returns the id of the new thread, or 0.
pub fn sys_spawn_thread(
    scheduler: &mut Scheduler,
    processes: &mut ProcessTable,
    tids: &mut IdCounter,
    pid: usize,
    entry: u64,
    name: String,
    args: Option<Vec<String>>,
    pml4: u64,
) -> (r: u64)
    requires
        old(processes).wf(),
        spawn_thread_ok(*old(processes), pid),
        old(scheduler).wf(),
        old(scheduler).fresh_id(old(tids).peek()),
    ensures
        final(processes).wf(),
        old(processes).vmas_apart() ==> final(processes).vmas_apart(),
        final(scheduler).wf(),
        ({
            let p = old(processes).view()[pid];
            let (start, end) = thread_stack(p.thread_count_spec() as int);
            &&& final(processes).view().dom() == old(processes).view().dom()
            &&& final(processes).view()[pid].thread_count_spec() == p.thread_count_spec() + 1
            &&& final(processes).view()[pid].vmas_spec().drop_last() == p.vmas_spec()
            &&& final(processes).view()[pid].vmas_spec().len() == p.vmas_spec().len() + 1
            &&& final(processes).view()[pid].vmas_spec().last().start_spec() == start
            &&& final(processes).view()[pid].vmas_spec().last().end_spec() == end
            &&& final(processes).view()[pid].vmas_spec().last().typ_spec() == VmaType::Stack
            &&& args is None ==> r == 0 && *final(scheduler) == *old(scheduler)
            &&& args matches Some(a) ==> {
                &&& r == old(tids).peek() as u64
                &&& final(scheduler).queue_spec().drop_last() == old(scheduler).queue_spec()
                &&& final(scheduler).queue_spec().len() == old(scheduler).queue_spec().len() + 1
                &&& final(scheduler).queue_spec().last().id_spec() == old(tids).peek()
                &&& final(scheduler).queue_spec().last().pid_spec() == pid
                &&& final(scheduler).queue_spec().last().user_stack_top_spec() == end
                &&& final(scheduler).queue_spec().last().entry_spec() == entry
                &&& final(scheduler).queue_spec().last().pml4_spec() == pml4
                &&& final(scheduler).queue_spec().last().args_spec() == a@
                &&& final(scheduler).queue_spec().last().name_spec() == name@
            }
        }),
{
    let ghost p = processes.view()[pid];
    let thread_idx = next_thread_index(processes, pid);
    proof {
        assert(thread_idx * STACK_SIZE <= USER_STACK_VIRT_END - STACK_SIZE);
    }
    let offset = thread_idx as u64 * STACK_SIZE as u64;
    let new_stack_end = USER_STACK_VIRT_END - offset;
    let new_stack_start = new_stack_end - STACK_SIZE as u64;
    let stack_vma = VMA::new(new_stack_start, new_stack_end, VmaType::Stack);
    let added = add_vma(processes, pid, stack_vma);
    proof {
        assert(added is Ok);
    }
    match args {
        Some(a) => {
            let new_thread = Thread::new_user_thread_existing_process(tids, entry, a, name, pml4, pid, new_stack_end);
            let tid = new_thread.get_id();
            scheduler.ready(new_thread);
            tid as u64
        },
        None => 0,
    }
}

/// The names of the programs, separated by line feeds.
pub open spec fn app_list_spec(names: Seq<Seq<u8>>) -> Seq<u8>
    decreases names.len(),
{
    if names.len() == 0 {
        Seq::empty()
    } else if names.len() == 1 {
        names[0]
    } else {
        app_list_spec(names.drop_last()) + seq![0x0au8] + names.last()
    }
}

/// Write the names of the programs, separated by line feeds, if a buffer of
/// `buffer_len` bytes is given and large enough. Returns the length of the list
/// and the bytes to write (none if the buffer is missing or too small).
pub fn sys_read_app_list(names: &Vec<Vec<u8>>, has_buffer: bool, buffer_len: usize) -> (r: (u64, Option<Vec<u8>>))
    requires
        app_list_spec(views(names@)).len() <= u64::MAX,
    ensures
        r.0 == app_list_spec(views(names@)).len(),
        (!has_buffer || buffer_len < app_list_spec(views(names@)).len()) ==> r.1 is None,
        (has_buffer && buffer_len >= app_list_spec(views(names@)).len()) ==> (r.1 matches Some(b) && b@
            == app_list_spec(views(names@))),
{
    let mut out: Vec<u8> = Vec::new();
    let mut i: usize = 0;
    while i < names.len()
        invariant
            i <= names@.len(),
            out@ == app_list_spec(views(names@).subrange(0, i as int)),
        decreases names@.len() - i,
    {
        if i > 0 {
            out.push(0x0a);
        }
        crate::library::text::push_bytes(&mut out, names[i].as_slice());
        proof {
            let sub = views(names@).subrange(0, i + 1);
            assert(sub.drop_last() == views(names@).subrange(0, i as int));
            assert(sub.last() == names@[i as int]@);
            if i == 0 {
                assert(sub.len() == 1);
            }
        }
        i = i + 1;
    }
    assert(views(names@).subrange(0, names@.len() as int) == views(names@));
    let required = out.len();
    if !has_buffer || buffer_len < required {
        (required as u64, None)
    } else {
        (required as u64, Some(out))
    }
}

} // verus!
