use vstd::prelude::*;
use std::collections::VecDeque;
use vstd::string::StringSliceAdditionalSpecFns;
use crate::consts::{PAGE_SIZE, USER_CODE_VIRT_START, USER_STACK_VIRT_END, USER_STACK_VIRT_START};
use crate::kernel::processes::process::{add_process, add_vma, remove_process, Process, ProcessTable};
use crate::kernel::processes::vma::{VmaType, VMA};
use crate::library::id_counter::IdCounter;
use crate::library::text::{bytes_of, decimal, push_bytes, push_decimal, push_str};
use crate::kernel::threads::thread::Thread;

verus! {

/// An entry of the list of living threads: thread id, process id and name.
pub type AliveEntry = (usize, usize, String);

/// Keeps the entries of all threads but thread `id`.
pub open spec fn other_than(id: usize) -> spec_fn(AliveEntry) -> bool {
    |e: AliveEntry| e.0 != id
}

/// Some living thread belongs to process `pid`.
pub open spec fn has_thread_of(alive: Seq<AliveEntry>, pid: usize) -> bool {
    exists|j: int| 0 <= j < alive.len() && (#[trigger] alive[j]).1 == pid
}

/// The index of the first thread of `q` with id `id`.
pub open spec fn first_with_id(q: Seq<Box<Thread>>, id: usize, i: int) -> bool {
    &&& 0 <= i < q.len()
    &&& q[i].id_spec() == id
    &&& forall|j: int| 0 <= j < i ==> (#[trigger] q[j]).id_spec() != id
}

/// Some entry of `alive` belongs to thread `id`.
pub open spec fn has_id(alive: Seq<AliveEntry>, id: usize) -> bool {
    exists|j: int| 0 <= j < alive.len() && (#[trigger] alive[j]).0 == id
}

/// No two entries of `alive` belong to the same thread.
pub open spec fn ids_distinct(alive: Seq<AliveEntry>) -> bool {
    forall|i: int, j: int| 0 <= i < j < alive.len() ==> (#[trigger] alive[i]).0 != (#[trigger] alive[j]).0
}

/// No two threads of `q` have the same id.
pub open spec fn queue_ids_distinct(q: Seq<Box<Thread>>) -> bool {
    forall|i: int, j: int| 0 <= i < j < q.len() ==> (#[trigger] q[i]).id_spec() != (#[trigger] q[j]).id_spec()
}

/// The living-thread entries of thread `t`, if any, name its process.
pub open spec fn pid_matches(alive: Seq<AliveEntry>, t: Box<Thread>) -> bool {
    forall|j: int| 0 <= j < alive.len() && (#[trigger] alive[j]).0 == t.id_spec() ==> alive[j].1 == t.pid_spec()
}

/// Dropping entries keeps the entries of a thread naming its process.
proof fn lemma_filter_pid_matches(s: Seq<AliveEntry>, p: spec_fn(AliveEntry) -> bool, t: Box<Thread>)
    requires
        pid_matches(s, t),
    ensures
        pid_matches(s.filter(p), t),
{
    let f = s.filter(p);
    assert forall|j: int| 0 <= j < f.len() && (#[trigger] f[j]).0 == t.id_spec() implies f[j].1 == t.pid_spec() by {
        assert(f.contains(f[j]));
        s.lemma_filter_contains_rev(p, f[j]);
        let i = choose|i: int| 0 <= i < s.len() && s[i] == f[j];
        assert(s[i].0 == t.id_spec());
    }
}

/// Dropping elements keeps distinct keys distinct.
proof fn lemma_filter_keys_distinct<A>(s: Seq<A>, p: spec_fn(A) -> bool, key: spec_fn(A) -> usize)
    requires
        forall|i: int, j: int| 0 <= i < j < s.len() ==> key(#[trigger] s[i]) != key(#[trigger] s[j]),
    ensures
        forall|i: int, j: int|
            0 <= i < j < s.filter(p).len() ==> key(#[trigger] s.filter(p)[i]) != key(#[trigger] s.filter(p)[j]),
    decreases s.len(),
{
    let f = s.filter(p);
    if s.len() == 0 {
        s.lemma_filter_len(p);
    } else {
        let d = s.drop_last();
        let l = s.last();
        assert(s == d.push(l));
        d.lemma_filter_push(l, p);
        assert forall|i: int, j: int| 0 <= i < j < d.len() implies key(#[trigger] d[i]) != key(#[trigger] d[j]) by {
            assert(d[i] == s[i] && d[j] == s[j]);
        }
        lemma_filter_keys_distinct(d, p, key);
        let fd = d.filter(p);
        assert forall|i: int, j: int| 0 <= i < j < f.len() implies key(#[trigger] f[i]) != key(#[trigger] f[j]) by {
            if p(l) && j == f.len() - 1 {
                assert(f[j] == l);
                assert(f[i] == fd[i]);
                assert(fd.contains(fd[i]));
                d.lemma_filter_contains_rev(p, fd[i]);
                let m = choose|m: int| 0 <= m < d.len() && d[m] == fd[i];
                assert(s[m] == d[m]);
                assert(s[s.len() - 1] == l);
            } else {
                assert(f[i] == fd[i] && f[j] == fd[j]);
            }
        }
    }
}

/// Thread `t` has an entry among the living threads `alive`, or is the idle
/// thread `idle`, which has none.
pub open spec fn listed_or_idle(alive: Seq<AliveEntry>, idle: usize, t: Box<Thread>) -> bool {
    has_id(alive, t.id_spec()) || t.id_spec() == idle
}

/// No thread of `q` has id `id`.
pub open spec fn not_queued(q: Seq<Box<Thread>>, id: usize) -> bool {
    forall|i: int| 0 <= i < q.len() ==> (#[trigger] q[i]).id_spec() != id
}

proof fn lemma_has_id_push(s: Seq<AliveEntry>, e: AliveEntry, x: usize)
    ensures
        has_id(s.push(e), x) <==> (has_id(s, x) || e.0 == x),
{
    let t = s.push(e);
    if has_id(t, x) {
        let j = choose|j: int| 0 <= j < t.len() && (#[trigger] t[j]).0 == x;
        if j < s.len() {
            assert(s[j] == t[j]);
        }
    }
    if has_id(s, x) {
        let j = choose|j: int| 0 <= j < s.len() && (#[trigger] s[j]).0 == x;
        assert(t[j] == s[j]);
    }
    if e.0 == x {
        assert(t[s.len() as int] == e);
    }
}

/// Dropping the entries of thread `k` keeps the others: the ids left are those
/// but `k`, distinct ids stay distinct, and one entry goes where there was one.
proof fn lemma_filter_other(s: Seq<AliveEntry>, k: usize)
    ensures
        forall|x: usize| #[trigger] has_id(s.filter(other_than(k)), x) <==> (has_id(s, x) && x != k),
        ids_distinct(s) ==> ids_distinct(s.filter(other_than(k))),
        ids_distinct(s) && has_id(s, k) ==> s.filter(other_than(k)).len() + 1 == s.len(),
        !has_id(s, k) ==> s.filter(other_than(k)) == s,
    decreases s.len(),
{
    reveal(Seq::filter);
    let f = s.filter(other_than(k));
    if s.len() == 0 {
        assert(f == Seq::<AliveEntry>::empty());
        assert forall|x: usize| #[trigger] has_id(f, x) <==> (has_id(s, x) && x != k) by {}
    } else {
        let d = s.drop_last();
        let l = s.last();
        lemma_filter_other(d, k);
        let fd = d.filter(other_than(k));
        assert(s == d.push(l));
        assert(f == if other_than(k)(l) { fd.push(l) } else { fd });
        assert forall|x: usize| #[trigger] has_id(f, x) <==> (has_id(s, x) && x != k) by {
            lemma_has_id_push(d, l, x);
            lemma_has_id_push(fd, l, x);
            assert(has_id(fd, x) <==> (has_id(d, x) && x != k));
        }
        if ids_distinct(s) {
            assert(ids_distinct(d)) by {
                assert forall|i: int, j: int| 0 <= i < j < d.len() implies (#[trigger] d[i]).0 != (#[trigger] d[j]).0 by {
                    assert(d[i] == s[i] && d[j] == s[j]);
                }
            }
            assert(!has_id(d, l.0)) by {
                if has_id(d, l.0) {
                    let j = choose|j: int| 0 <= j < d.len() && (#[trigger] d[j]).0 == l.0;
                    assert(s[j] == d[j]);
                    assert(s[d.len() as int] == l);
                }
            }
            if l.0 != k {
                assert(!has_id(fd, l.0));
                assert forall|i: int, j: int| 0 <= i < j < f.len() implies (#[trigger] f[i]).0 != (#[trigger] f[j]).0 by {
                    if j == f.len() - 1 {
                        assert(f[j] == l);
                        assert(f[i] == fd[i]);
                        if f[i].0 == l.0 {
                            assert(has_id(fd, l.0));
                        }
                    } else {
                        assert(f[i] == fd[i] && f[j] == fd[j]);
                    }
                }
                if has_id(s, k) {
                    lemma_has_id_push(d, l, k);
                }
            } else {
                if has_id(s, k) {
                    assert(!has_id(d, k));
                }
            }
        }
        if !has_id(s, k) {
            lemma_has_id_push(d, l, k);
            assert(l.0 != k) by {
                assert(s[s.len() - 1] == l);
            }
        }
    }
}

/// What a switch to the next thread leaves to be done outside the scheduler.
pub struct SwitchOutcome {
    /// The address space of a thread that exited earlier, to be freed now.
    pub freed_pml4: Option<u64>,
    /// The scheduler made another thread active; the caller switches to it.
    pub switched: bool,
}

/// What a kill leaves to be done outside the scheduler.
pub enum KillOutcome {
    /// The calling thread killed itself: it exited, as `exit` does.
    ExitedActive(SwitchOutcome),
    /// A ready thread was removed; the address space of its process is to be
    /// freed when it was the last thread of the process.
    Removed { freed_pml4: Option<u64> },
}

/// What killing a process leaves to be done outside the scheduler.
pub struct ProcessKill {
    /// How many living threads were killed.
    pub killed: usize,
    /// The address space of the process, to be freed now that it is gone.
    pub freed_pml4: Option<u64>,
}

/// `i` is the first thread of `q` that belongs to process `pid`.
pub open spec fn first_of_process(q: Seq<Box<Thread>>, pid: usize, i: int) -> bool {
    &&& 0 <= i < q.len()
    &&& q[i].pid_spec() == pid
    &&& forall|k: int| 0 <= k < i ==> (#[trigger] q[k]).pid_spec() != pid
}

/// The state of a round-robin scheduler for cooperative threads: the active
/// thread, the ready queue, the list of living threads, and the thread that
/// exited last, whose memory is freed at the next switch.
pub struct Scheduler {
    active_thread: Option<Box<Thread>>,
    ready_queue: VecDeque<Box<Thread>>,
    alive_threads: Vec<AliveEntry>,
    zombie: Option<Box<Thread>>,
    zombie_pml4: Option<u64>,
    idle_id: Ghost<usize>,
}

/// Copies the entries of `v` that do not belong to thread `id`.
fn without_thread(v: &Vec<AliveEntry>, id: usize) -> (r: Vec<AliveEntry>)
    ensures
        r@ == v@.filter(other_than(id)),
{
    let mut out: Vec<AliveEntry> = Vec::new();
    let mut i: usize = 0;
    while i < v.len()
        invariant
            i <= v@.len(),
            out@ == v@.subrange(0, i as int).filter(other_than(id)),
        decreases v@.len() - i,
    {
        let ghost before = v@.subrange(0, i as int);
        let ghost next = v@.subrange(0, i + 1);
        assert(next.drop_last() =~= before);
        assert(next.last() == v@[i as int]);
        assert(next.filter(other_than(id)) == if other_than(id)(next.last()) {
            before.filter(other_than(id)).push(next.last())
        } else {
            before.filter(other_than(id))
        }) by {
            reveal(Seq::filter);
        }
        if v[i].0 != id {
            let e = (v[i].0, v[i].1, v[i].2.clone());
            assert(e == v@[i as int]);
            out.push(e);
        }
        i = i + 1;
    }
    assert(v@.subrange(0, v@.len() as int) =~= v@);
    out
}

/// Whether some entry of `v` belongs to process `pid`.
fn any_thread_of(v: &Vec<AliveEntry>, pid: usize) -> (r: bool)
    ensures
        r == has_thread_of(v@, pid),
{
    let mut i: usize = 0;
    while i < v.len()
        invariant
            i <= v@.len(),
            forall|j: int| 0 <= j < i ==> (#[trigger] v@[j]).1 != pid,
        decreases v@.len() - i,
    {
        if v[i].1 == pid {
            assert(v@[i as int].1 == pid);
            return true;
        }
        i = i + 1;
    }
    false
}

/// Keeps the entries that outlive the killing of process `pid`: those of
/// other processes, and that of thread `spared`.
pub open spec fn survives_kill(pid: usize, spared: Option<usize>) -> spec_fn(AliveEntry) -> bool {
    |e: AliveEntry| e.1 != pid || spared == Some(e.0)
}

/// Keeps the threads of processes other than `pid`.
pub open spec fn not_of_process(pid: usize) -> spec_fn(Box<Thread>) -> bool {
    |t: Box<Thread>| t.pid_spec() != pid
}

/// Copies the entries of `v` that outlive the killing of process `pid`.
fn entries_surviving_kill(v: &Vec<AliveEntry>, pid: usize, spared: Option<usize>) -> (r: Vec<AliveEntry>)
    ensures
        r@ == v@.filter(survives_kill(pid, spared)),
{
    let mut out: Vec<AliveEntry> = Vec::new();
    let mut i: usize = 0;
    while i < v.len()
        invariant
            i <= v@.len(),
            out@ == v@.subrange(0, i as int).filter(survives_kill(pid, spared)),
        decreases v@.len() - i,
    {
        let ghost before = v@.subrange(0, i as int);
        proof {
            assert(v@.subrange(0, i + 1) == before.push(v@[i as int]));
            before.lemma_filter_push(v@[i as int], survives_kill(pid, spared));
        }
        let is_spared = match spared {
            Some(id) => id == v[i].0,
            None => false,
        };
        if v[i].1 != pid || is_spared {
            let e = (v[i].0, v[i].1, v[i].2.clone());
            assert(e == v@[i as int]);
            out.push(e);
        }
        i = i + 1;
    }
    assert(v@.subrange(0, v@.len() as int) =~= v@);
    out
}

impl Scheduler {
    pub closed spec fn active_spec(&self) -> Option<Box<Thread>> {
        self.active_thread
    }

    pub closed spec fn queue_spec(&self) -> Seq<Box<Thread>> {
        self.ready_queue@
    }

    pub closed spec fn alive_spec(&self) -> Seq<AliveEntry> {
        self.alive_threads@
    }

    pub closed spec fn zombie_spec(&self) -> Option<Box<Thread>> {
        self.zombie
    }

    pub closed spec fn zombie_pml4_spec(&self) -> Option<u64> {
        self.zombie_pml4
    }

    /// The id of the idle thread that the scheduler was made with.
    pub closed spec fn idle_id_spec(&self) -> usize {
        self.idle_id@
    }

    /// Thread ids are unique among the living threads, and among the waiting
    /// and the active threads; every waiting or active thread but the idle
    /// thread has an entry among the living threads, which names its process.
    pub open spec fn wf(&self) -> bool {
        &&& ids_distinct(self.alive_spec())
        &&& queue_ids_distinct(self.queue_spec())
        &&& self.active_spec() matches Some(a) ==> not_queued(self.queue_spec(), a.id_spec())
        &&& forall|i: int| 0 <= i < self.queue_spec().len() ==> pid_matches(self.alive_spec(), #[trigger] self.queue_spec()[i])
        &&& self.active_spec() matches Some(a) ==> pid_matches(self.alive_spec(), a)
        &&& forall|i: int|
            0 <= i < self.queue_spec().len() ==> listed_or_idle(
                self.alive_spec(),
                self.idle_id_spec(),
                #[trigger] self.queue_spec()[i],
            )
        &&& self.active_spec() matches Some(a) ==> listed_or_idle(self.alive_spec(), self.idle_id_spec(), a)
    }

    /// No thread of the scheduler, living, waiting or active, has id `id`.
    pub open spec fn fresh_id(&self, id: usize) -> bool {
        &&& !has_id(self.alive_spec(), id)
        &&& not_queued(self.queue_spec(), id)
        &&& self.active_spec() matches Some(a) ==> a.id_spec() != id
    }

    /// Create a new scheduler instance with an empty ready queue
    /// and the idle thread as the active thread.
    pub fn new(idle: Box<Thread>) -> (r: Scheduler)
        ensures
            r.wf(),
            r.active_spec() == Some(idle),
            r.queue_spec() == Seq::<Box<Thread>>::empty(),
            r.alive_spec() == Seq::<AliveEntry>::empty(),
            r.zombie_spec() is None,
            r.zombie_pml4_spec() is None,
            r.idle_id_spec() == idle.id_spec(),
    {
        let ghost idle_id = idle.id_spec();
        Scheduler {
            active_thread: Some(idle),
            ready_queue: VecDeque::new(),
            alive_threads: Vec::new(),
            zombie: None,
            zombie_pml4: None,
            idle_id: Ghost(idle_id),
        }
    }

    /// Get the ID of the currently active thread.
    pub fn get_active_tid(&self) -> (r: usize)
        requires
            self.active_spec() is Some,
        ensures
            r == self.active_spec().unwrap().id_spec(),
    {
        match &self.active_thread {
            Some(t) => t.get_id(),
            None => 0,
        }
    }

    /// Get the PID of the currently active thread.
    pub fn get_active_pid(&self) -> (r: usize)
        requires
            self.active_spec() is Some,
        ensures
            r == self.active_spec().unwrap().pid_spec(),
    {
        match &self.active_thread {
            Some(t) => t.get_pid(),
            None => 0,
        }
    }

    /// The active thread, for starting it and for switching away from it.
    pub fn active_thread_mut(&mut self) -> (r: &mut Box<Thread>)
        requires
            old(self).active_spec() is Some,
        ensures
            *r == old(self).active_spec().unwrap(),
            final(r).id_spec() == r.id_spec() && final(r).pid_spec() == r.pid_spec() ==> (final(self).wf()
                <==> old(self).wf()),
            final(self).active_spec() == Some(*final(r)),
            final(self).queue_spec() == old(self).queue_spec(),
            final(self).alive_spec() == old(self).alive_spec(),
            final(self).zombie_spec() == old(self).zombie_spec(),
            final(self).zombie_pml4_spec() == old(self).zombie_pml4_spec(),
    {
        self.active_thread.as_mut().unwrap()
    }

    /// Register a new thread in the ready queue.
    pub fn ready(&mut self, thread: Box<Thread>)
        requires
            old(self).wf(),
            old(self).fresh_id(thread.id_spec()),
        ensures
            final(self).wf(),
            final(self).active_spec() == old(self).active_spec(),
            final(self).queue_spec() == old(self).queue_spec().push(thread),
            final(self).alive_spec().len() == old(self).alive_spec().len() + 1,
            final(self).alive_spec().drop_last() == old(self).alive_spec(),
            final(self).alive_spec().last().0 == thread.id_spec(),
            final(self).alive_spec().last().1 == thread.pid_spec(),
            final(self).alive_spec().last().2@ == thread.name_spec(),
            final(self).zombie_spec() == old(self).zombie_spec(),
            final(self).zombie_pml4_spec() == old(self).zombie_pml4_spec(),
    {
        self.alive_threads.push((thread.get_id(), thread.get_pid(), thread.get_name()));
        self.ready_queue.push_back(thread);
        proof {
            let a0 = old(self).alive_spec();
            let e = self.alive_spec().last();
            let q = self.queue_spec();
            assert(self.alive_spec() == a0.push(e));
            assert forall|i: int| 0 <= i < q.len() implies listed_or_idle(self.alive_spec(), self.idle_id_spec(), #[trigger] q[i]) by {
                lemma_has_id_push(a0, e, q[i].id_spec());
                if i < q.len() - 1 {
                    assert(q[i] == old(self).queue_spec()[i]);
                }
            }
            if self.active_spec() is Some {
                lemma_has_id_push(a0, e, self.active_spec().unwrap().id_spec());
            }
        }
    }

    /// Re-register a thread that was blocked in the ready queue.
    pub fn ready_after_block(&mut self, thread: Box<Thread>)
        requires
            old(self).wf(),
            not_queued(old(self).queue_spec(), thread.id_spec()),
            old(self).active_spec() matches Some(a) ==> a.id_spec() != thread.id_spec(),
            pid_matches(old(self).alive_spec(), thread),
            listed_or_idle(old(self).alive_spec(), old(self).idle_id_spec(), thread),
        ensures
            final(self).wf(),
            final(self).active_spec() == old(self).active_spec(),
            final(self).queue_spec() == old(self).queue_spec().push(thread),
            final(self).alive_spec() == old(self).alive_spec(),
            final(self).zombie_spec() == old(self).zombie_spec(),
            final(self).zombie_pml4_spec() == old(self).zombie_pml4_spec(),
    {
        self.ready_queue.push_back(thread);
    }

    /// Terminate the active thread and make the first ready thread active. The
    /// exiting thread is kept until the next switch, which frees it; if it was the
    /// last thread of its process, the process is removed and its address space is
    /// freed at that switch too (as is that of an exiting kernel thread).
    /// Returns the address space of the thread that exited before, to be freed now;
    /// the caller then switches from the exiting thread to the new active one.
    pub fn exit(&mut self, processes: &mut ProcessTable) -> (r: SwitchOutcome)
        requires
            old(self).active_spec() is Some,
            old(self).queue_spec().len() > 0,
            old(processes).wf(),
            old(self).wf(),
        ensures
            final(self).wf(),
            ({
                let cur = old(self).active_spec().unwrap();
                let alive = old(self).alive_spec().filter(other_than(cur.id_spec()));
                let is_last = cur.pid_spec() != 0 && !has_thread_of(alive, cur.pid_spec());
                &&& r.freed_pml4 == old(self).zombie_pml4_spec()
                &&& r.switched
                &&& final(self).alive_spec() == alive
                &&& final(self).zombie_spec() == Some(cur)
                &&& final(self).zombie_pml4_spec() == if is_last || cur.pid_spec() == 0 {
                    Some(cur.pml4_spec())
                } else {
                    None
                }
                &&& final(processes).view() == if is_last {
                    old(processes).view().remove(cur.pid_spec())
                } else {
                    old(processes).view()
                }
                &&& final(self).active_spec() == Some(old(self).queue_spec()[0])
                &&& final(self).queue_spec() == old(self).queue_spec().drop_first()
            }),
            final(processes).wf(),
            old(processes).vmas_apart() ==> final(processes).vmas_apart(),
    {
        // free the thread that exited before
        self.zombie = None;
        let freed = self.zombie_pml4.take();

        let current = match self.active_thread.take() {
            Some(t) => t,
            None => {
                return SwitchOutcome { freed_pml4: freed, switched: false };
            },
        };
        self.alive_threads = without_thread(&self.alive_threads, current.get_id());

        let pid = current.get_pid();
        let is_last_of_process = if pid != 0 {
            !any_thread_of(&self.alive_threads, pid)
        } else {
            false
        };

        if is_last_of_process {
            remove_process(processes, pid);
            self.zombie_pml4 = Some(current.get_pml4());  // free after the switch
        } else if pid == 0 {
            self.zombie_pml4 = Some(current.get_pml4());  // kernel thread: free its page tables
        }

        self.zombie = Some(current);  // free after the switch

        // The idle thread never exits, so there is at least one thread in the queue.
        let next = self.ready_queue.pop_front();
        self.active_thread = next;
        assert(self.ready_queue@ =~= old(self).queue_spec().drop_first());
        proof {
            lemma_filter_other(old(self).alive_spec(), current.id_spec());
            let q = old(self).queue_spec();
            assert(queue_ids_distinct(self.ready_queue@)) by {
                assert forall|i: int, j: int| 0 <= i < j < self.ready_queue@.len() implies (#[trigger] self.ready_queue@[i]).id_spec()
                    != (#[trigger] self.ready_queue@[j]).id_spec() by {
                    assert(self.ready_queue@[i] == q[i + 1] && self.ready_queue@[j] == q[j + 1]);
                }
            }
            assert forall|i: int| 0 <= i < self.ready_queue@.len() implies pid_matches(self.alive_spec(), #[trigger] self.ready_queue@[i]) by {
                assert(self.ready_queue@[i] == q[i + 1]);
                lemma_filter_pid_matches(old(self).alive_spec(), other_than(current.id_spec()), q[i + 1]);
            }
            lemma_filter_pid_matches(old(self).alive_spec(), other_than(current.id_spec()), q[0]);
            assert(not_queued(self.ready_queue@, q[0].id_spec())) by {
                assert forall|i: int| 0 <= i < self.ready_queue@.len() implies (#[trigger] self.ready_queue@[i]).id_spec()
                    != q[0].id_spec() by {
                    assert(self.ready_queue@[i] == q[i + 1]);
                }
            }
        }
        SwitchOutcome { freed_pml4: freed, switched: true }
    }

    /// Yield the CPU: the active thread goes to the back of the ready queue and the
    /// first ready thread becomes active. Nothing happens while the scheduler is not
    /// running or while the allocator is locked. Returns the address space of the
    /// thread that exited before, to be freed now, and whether the caller must
    /// switch from the old active thread to the new one.
    pub fn yield_cpu(&mut self, scheduler_active: bool, allocator_locked: bool) -> (r: SwitchOutcome)
        requires
            scheduler_active && !allocator_locked ==> old(self).active_spec() is Some,
            old(self).wf(),
        ensures
            final(self).wf(),
            !scheduler_active || allocator_locked ==> {
                &&& r.freed_pml4 is None
                &&& !r.switched
                &&& *final(self) == *old(self)
            },
            scheduler_active && !allocator_locked ==> {
                &&& r.freed_pml4 == old(self).zombie_pml4_spec()
                &&& final(self).zombie_spec() is None
                &&& final(self).zombie_pml4_spec() is None
                &&& final(self).alive_spec() == old(self).alive_spec()
                &&& r.switched == (old(self).queue_spec().len() > 0)
                &&& if old(self).queue_spec().len() > 0 {
                    &&& final(self).active_spec() == Some(old(self).queue_spec()[0])
                    &&& final(self).queue_spec() == old(self).queue_spec().drop_first().push(
                        old(self).active_spec().unwrap(),
                    )
                } else {
                    &&& final(self).active_spec() == old(self).active_spec()
                    &&& final(self).queue_spec() == old(self).queue_spec()
                }
            },
    {
        if !scheduler_active {
            return SwitchOutcome { freed_pml4: None, switched: false };  // the scheduler is not running
        }
        if allocator_locked {
            return SwitchOutcome { freed_pml4: None, switched: false };  // do not yield while the allocator is locked
        }

        // free the thread that exited before
        self.zombie = None;
        let freed = self.zombie_pml4.take();

        let current = match self.active_thread.take() {
            Some(t) => t,
            None => {
                return SwitchOutcome { freed_pml4: freed, switched: false };
            },
        };
        if let Some(dequeued) = self.ready_queue.pop_front() {
            self.ready_queue.push_back(current);
            self.active_thread = Some(dequeued);
            assert(self.ready_queue@ =~= old(self).queue_spec().drop_first().push(
                old(self).active_spec().unwrap(),
            ));
            SwitchOutcome { freed_pml4: freed, switched: true }
        } else {
            self.active_thread = Some(current);
            SwitchOutcome { freed_pml4: freed, switched: false }
        }
    }

    /// Kill the thread with the given ID. If it is the active thread, it exits.
    /// Otherwise its first entry is removed from the ready queue, all its entries
    /// from the list of living threads, and, if it was the last thread of its
    /// process, the process too.
    pub fn kill(&mut self, processes: &mut ProcessTable, to_kill_id: usize) -> (r: KillOutcome)
        requires
            old(processes).wf(),
            old(self).wf(),
            old(self).active_spec() is Some && old(self).active_spec().unwrap().id_spec() == to_kill_id
                ==> old(self).queue_spec().len() > 0,
        ensures
            final(self).wf(),
            has_id(old(self).alive_spec(), to_kill_id) ==> final(self).alive_spec().len() + 1 == old(
                self,
            ).alive_spec().len(),
            !has_id(old(self).alive_spec(), to_kill_id) ==> final(self).alive_spec() == old(self).alive_spec(),
            !has_id(final(self).alive_spec(), to_kill_id),
            not_queued(final(self).queue_spec(), to_kill_id),
            final(processes).wf(),
            old(processes).vmas_apart() ==> final(processes).vmas_apart(),
            old(self).active_spec() is Some && old(self).active_spec().unwrap().id_spec() == to_kill_id
                ==> r is ExitedActive && final(self).zombie_spec() == old(self).active_spec()
                && final(self).active_spec() == Some(old(self).queue_spec()[0])
                && final(self).queue_spec() == old(self).queue_spec().drop_first()
                && final(self).alive_spec() == old(self).alive_spec().filter(other_than(to_kill_id)),
            !(old(self).active_spec() is Some && old(self).active_spec().unwrap().id_spec()
                == to_kill_id) ==> {
                let alive = old(self).alive_spec().filter(other_than(to_kill_id));
                &&& r is Removed
                &&& final(self).active_spec() == old(self).active_spec()
                &&& final(self).zombie_spec() == old(self).zombie_spec()
                &&& final(self).zombie_pml4_spec() == old(self).zombie_pml4_spec()
                &&& final(self).alive_spec() == alive
                &&& if exists|i: int| first_with_id(old(self).queue_spec(), to_kill_id, i) {
                    let i = choose|i: int| first_with_id(old(self).queue_spec(), to_kill_id, i);
                    let t = old(self).queue_spec()[i];
                    let is_last = t.pid_spec() != 0 && !has_thread_of(alive, t.pid_spec());
                    &&& final(self).queue_spec() == old(self).queue_spec().remove(i)
                    &&& final(processes).view() == if is_last {
                        old(processes).view().remove(t.pid_spec())
                    } else {
                        old(processes).view()
                    }
                    &&& r == (KillOutcome::Removed {
                        freed_pml4: if is_last {
                            Some(t.pml4_spec())
                        } else {
                            None
                        },
                    })
                } else {
                    &&& final(self).queue_spec() == old(self).queue_spec()
                    &&& final(processes).view() == old(processes).view()
                    &&& r == (KillOutcome::Removed { freed_pml4: None })
                }
            },
    {
        // check if the active thread is killed
        let kills_active = match &self.active_thread {
            Some(active) => active.get_id() == to_kill_id,
            None => false,
        };
        if kills_active {
            let outcome = self.exit(processes);
            proof {
                let q = old(self).queue_spec();
                lemma_filter_other(old(self).alive_spec(), to_kill_id);
                assert(not_queued(q, to_kill_id));
                assert forall|i: int| 0 <= i < self.queue_spec().len() implies (#[trigger] self.queue_spec()[i]).id_spec()
                    != to_kill_id by {
                    assert(self.queue_spec()[i] == q[i + 1]);
                }
                assert(!has_id(self.alive_spec(), to_kill_id));
            }
            return KillOutcome::ExitedActive(outcome);
        }

        // remove the first matching thread from the ready queue
        let ghost q = self.ready_queue@;
        let mut i: usize = 0;
        let mut found = false;
        while i < self.ready_queue.len() && !found
            invariant
                self.ready_queue@ == q,
                i <= q.len(),
                found ==> i < q.len() && q[i as int].id_spec() == to_kill_id,
                forall|j: int| 0 <= j < i ==> (#[trigger] q[j]).id_spec() != to_kill_id,
            decreases q.len() - i + if found { 0int } else { 1int },
        {
            if self.ready_queue[i].get_id() == to_kill_id {
                found = true;
            } else {
                i = i + 1;
            }
        }
        let killed = if found {
            self.ready_queue.remove(i)
        } else {
            None
        };
        proof {
            if found {
                assert(first_with_id(q, to_kill_id, i as int));
                let c = choose|c: int| first_with_id(q, to_kill_id, c);
                if c < i {
                    assert(q[c].id_spec() != to_kill_id);
                } else if c > i {
                    assert(q[i as int].id_spec() != to_kill_id);
                }
            } else {
                assert(!exists|c: int| first_with_id(q, to_kill_id, c));
            }
        }

        self.alive_threads = without_thread(&self.alive_threads, to_kill_id);
        proof {
            lemma_filter_other(old(self).alive_spec(), to_kill_id);
            assert(!has_id(self.alive_spec(), to_kill_id));
            let q2 = self.ready_queue@;
            if self.active_spec() is Some {
                lemma_filter_pid_matches(old(self).alive_spec(), other_than(to_kill_id), self.active_spec().unwrap());
            }
            assert forall|a: int| 0 <= a < q2.len() implies pid_matches(self.alive_spec(), #[trigger] q2[a]) by {
                if found {
                    let a0 = if a < i { a } else { a + 1 };
                    assert(q2[a] == q[a0]);
                    lemma_filter_pid_matches(old(self).alive_spec(), other_than(to_kill_id), q[a0]);
                } else {
                    assert(q2[a] == q[a]);
                    lemma_filter_pid_matches(old(self).alive_spec(), other_than(to_kill_id), q[a]);
                }
            }
            if found {
                assert(q2 == q.remove(i as int));
                assert forall|a: int, b: int| 0 <= a < b < q2.len() implies (#[trigger] q2[a]).id_spec()
                    != (#[trigger] q2[b]).id_spec() by {
                    let a0 = if a < i { a } else { a + 1 };
                    let b0 = if b < i { b } else { b + 1 };
                    assert(q2[a] == q[a0] && q2[b] == q[b0]);
                }
                assert forall|a: int| 0 <= a < q2.len() implies (#[trigger] q2[a]).id_spec() != to_kill_id by {
                    let a0 = if a < i { a } else { a + 1 };
                    assert(q2[a] == q[a0]);
                    assert(q[i as int].id_spec() == to_kill_id);
                }
                if self.active_spec() is Some {
                    let act = self.active_spec().unwrap();
                    assert forall|a: int| 0 <= a < q2.len() implies (#[trigger] q2[a]).id_spec() != act.id_spec() by {
                        let a0 = if a < i { a } else { a + 1 };
                        assert(q2[a] == q[a0]);
                    }
                }
            } else {
                assert(q2 == q);
            }
        }

        match killed {
            Some(thread) => {
                let pid = thread.get_pid();
                let is_last = pid != 0 && !any_thread_of(&self.alive_threads, pid);
                if is_last {
                    let pml4 = thread.get_pml4();
                    remove_process(processes, pid);
                    KillOutcome::Removed { freed_pml4: Some(pml4) }
                } else {
                    // not the last thread of its process
                    KillOutcome::Removed { freed_pml4: None }
                }
            },
            None => KillOutcome::Removed { freed_pml4: None },
        }
    }

    /// The id of the active thread, if there is one.
    pub open spec fn active_id_spec(&self) -> Option<usize> {
        match self.active_spec() {
            Some(t) => Some(t.id_spec()),
            None => None,
        }
    }

    /// Kill process `pid`: each of its threads leaves the ready queue and the
    /// list of living threads, but the active thread, which cannot end itself
    /// this way; the process leaves the process table unless a living thread of
    /// it is left. Returns how many living threads were killed and, once the
    /// process is gone, its address space to be freed, taken from the first of
    /// its threads that left the ready queue (the kernel's, of process 0, is
    /// never freed).
    pub fn kill_process(&mut self, processes: &mut ProcessTable, pid: usize) -> (r: ProcessKill)
        requires
            old(self).wf(),
            old(processes).wf(),
        ensures
            final(self).wf(),
            final(processes).wf(),
            old(processes).vmas_apart() ==> final(processes).vmas_apart(),
            final(self).active_spec() == old(self).active_spec(),
            final(self).zombie_spec() == old(self).zombie_spec(),
            final(self).zombie_pml4_spec() == old(self).zombie_pml4_spec(),
            final(self).queue_spec() == old(self).queue_spec().filter(not_of_process(pid)),
            final(self).alive_spec() == old(self).alive_spec().filter(survives_kill(pid, old(self).active_id_spec())),
            r.killed + final(self).alive_spec().len() == old(self).alive_spec().len(),
            r.freed_pml4 == if pid != 0 && !has_thread_of(final(self).alive_spec(), pid) && exists|i: int|
                first_of_process(old(self).queue_spec(), pid, i) {
                Some(
                    old(self).queue_spec()[choose|i: int| first_of_process(old(self).queue_spec(), pid, i)].pml4_spec(),
                )
            } else {
                None
            },
            forall|i: int|
                0 <= i < final(self).queue_spec().len() ==> (#[trigger] final(self).queue_spec()[i]).pid_spec() != pid,
            forall|j: int|
                0 <= j < final(self).alive_spec().len() && (#[trigger] final(self).alive_spec()[j]).1 == pid
                    ==> old(self).active_id_spec() == Some(final(self).alive_spec()[j].0),
            final(processes).view() == if has_thread_of(final(self).alive_spec(), pid) {
                old(processes).view()
            } else {
                old(processes).view().remove(pid)
            },
    {
        let spared: Option<usize> = match &self.active_thread {
            Some(t) => Some(t.get_id()),
            None => None,
        };
        let ghost keep = not_of_process(pid);
        let ghost q0 = self.ready_queue@;
        let ghost mut j: int = 0;
        let ghost mut fi: int = 0;
        let mut first_pml4: Option<u64> = None;
        let mut i: usize = 0;
        while i < self.ready_queue.len()
            invariant
                0 <= j <= q0.len(),
                first_pml4 is None ==> forall|k: int| 0 <= k < j ==> (#[trigger] q0[k]).pid_spec() != pid,
                first_pml4 matches Some(x) ==> first_of_process(q0, pid, fi) && fi < j && x == q0[fi].pml4_spec(),
                i == q0.subrange(0, j).filter(keep).len(),
                self.ready_queue@ == q0.subrange(0, j).filter(keep) + q0.subrange(j, q0.len() as int),
                keep == not_of_process(pid),
                q0 == old(self).queue_spec(),
                self.alive_threads@ == old(self).alive_spec(),
                self.active_thread == old(self).active_spec(),
                self.zombie == old(self).zombie_spec(),
                self.zombie_pml4 == old(self).zombie_pml4_spec(),
                self.idle_id == old(self).idle_id,
            decreases self.ready_queue@.len() - i,
        {
            let ghost before = q0.subrange(0, j);
            proof {
                assert(q0.subrange(0, j + 1) == before.push(q0[j]));
                before.lemma_filter_push(q0[j], keep);
                assert(self.ready_queue@[i as int] == q0[j]);
            }
            if self.ready_queue[i].get_pid() == pid {
                let ghost cur = self.ready_queue@;
                let killed = self.ready_queue.remove(i);
                if first_pml4.is_none() {
                    if let Some(t) = killed {
                        first_pml4 = Some(t.get_pml4());
                        proof {
                            fi = j;
                        }
                    }
                }
                proof {
                    assert(self.ready_queue@ == cur.remove(i as int));
                    j = j + 1;
                    assert(self.ready_queue@ =~= q0.subrange(0, j).filter(keep) + q0.subrange(j, q0.len() as int));
                }
            } else {
                i = i + 1;
                proof {
                    j = j + 1;
                    assert(self.ready_queue@ =~= q0.subrange(0, j).filter(keep) + q0.subrange(j, q0.len() as int));
                }
            }
        }
        proof {
            assert(j == q0.len());
            assert(q0.subrange(0, j) == q0);
            assert(self.ready_queue@ =~= q0.filter(keep));
        }

        let ghost a0 = self.alive_threads@;
        let old_len = self.alive_threads.len();
        self.alive_threads = entries_surviving_kill(&self.alive_threads, pid, spared);
        proof {
            a0.lemma_filter_len(survives_kill(pid, spared));
        }
        let n = old_len - self.alive_threads.len();
        let gone = !any_thread_of(&self.alive_threads, pid);
        if gone {
            remove_process(processes, pid);
        }
        let freed_pml4 = if pid != 0 && gone {
            first_pml4
        } else {
            None
        };
        proof {
            match first_pml4 {
                Some(x) => {
                    let c = choose|c: int| first_of_process(q0, pid, c);
                    if c < fi {
                        assert(q0[c].pid_spec() != pid);
                    } else if c > fi {
                        assert(q0[fi].pid_spec() != pid);
                    }
                },
                None => {
                    if exists|c: int| first_of_process(q0, pid, c) {
                        let c = choose|c: int| first_of_process(q0, pid, c);
                        assert(q0[c].pid_spec() != pid);
                    }
                },
            }
        }
        proof {
            let p = survives_kill(pid, spared);
            let q = self.ready_queue@;
            let alive = self.alive_threads@;
            lemma_filter_keys_distinct(a0, p, |e: AliveEntry| e.0);
            lemma_filter_keys_distinct(q0, keep, |t: Box<Thread>| t.id_spec());
            assert forall|a: int| 0 <= a < q.len() implies pid_matches(alive, #[trigger] q[a])
                && listed_or_idle(alive, self.idle_id_spec(), q[a])
                && (#[trigger] q[a]).pid_spec() != pid
                && (self.active_spec() matches Some(t) ==> q[a].id_spec() != t.id_spec()) by {
                q0.lemma_filter_pred(keep, a);
                assert(q.contains(q[a]));
                q0.lemma_filter_contains_rev(keep, q[a]);
                let m = choose|m: int| 0 <= m < q0.len() && q0[m] == q[a];
                assert(pid_matches(a0, q0[m]));
                lemma_filter_pid_matches(a0, p, q0[m]);
                assert(listed_or_idle(a0, self.idle_id_spec(), q0[m]));
                if has_id(a0, q[a].id_spec()) {
                    let e = choose|e: int| 0 <= e < a0.len() && (#[trigger] a0[e]).0 == q[a].id_spec();
                    a0.lemma_filter_contains(p, e);
                    let f = choose|f: int| 0 <= f < alive.len() && alive[f] == a0[e];
                    assert(alive[f].0 == q[a].id_spec());
                }
            }
            if self.active_spec() is Some {
                let act = self.active_spec().unwrap();
                lemma_filter_pid_matches(a0, p, act);
                if has_id(a0, act.id_spec()) {
                    let e = choose|e: int| 0 <= e < a0.len() && (#[trigger] a0[e]).0 == act.id_spec();
                    a0.lemma_filter_contains(p, e);
                    let f = choose|f: int| 0 <= f < alive.len() && alive[f] == a0[e];
                    assert(alive[f].0 == act.id_spec());
                }
            }
            assert forall|e: int| 0 <= e < alive.len() && (#[trigger] alive[e]).1 == pid
                implies old(self).active_id_spec() == Some(alive[e].0) by {
                a0.lemma_filter_pred(p, e);
            }
        }
        ProcessKill { killed: n, freed_pml4 }
    }

    /// Take the active thread out of the scheduler, to block it.
    /// Complete the blocking with `switch_from_blocked_thread`.
    pub fn prepare_block(&mut self) -> (r: Box<Thread>)
        requires
            old(self).active_spec() is Some,
            old(self).wf(),
        ensures
            final(self).wf(),
            r == old(self).active_spec().unwrap(),
            final(self).active_spec() is None,
            final(self).queue_spec() == old(self).queue_spec(),
            final(self).alive_spec() == old(self).alive_spec(),
            final(self).zombie_spec() == old(self).zombie_spec(),
            final(self).zombie_pml4_spec() == old(self).zombie_pml4_spec(),
    {
        self.active_thread.take().unwrap()
    }

    /// Complete a blocking operation begun with `prepare_block`: the first ready
    /// thread becomes active, and the blocked thread is handed back to the caller,
    /// which switches from it. With no ready thread, the blocked thread becomes
    /// active again (and the caller yields).
    pub fn switch_from_blocked_thread(&mut self, blocked: Box<Thread>) -> (r: Option<Box<Thread>>)
        requires
            old(self).wf(),
            pid_matches(old(self).alive_spec(), blocked),
            listed_or_idle(old(self).alive_spec(), old(self).idle_id_spec(), blocked),
        ensures
            final(self).wf(),
            old(self).queue_spec().len() > 0 ==> {
                &&& r == Some(blocked)
                &&& final(self).active_spec() == Some(old(self).queue_spec()[0])
                &&& final(self).queue_spec() == old(self).queue_spec().drop_first()
            },
            old(self).queue_spec().len() == 0 ==> {
                &&& r is None
                &&& final(self).active_spec() == Some(blocked)
                &&& final(self).queue_spec() == old(self).queue_spec()
            },
            final(self).alive_spec() == old(self).alive_spec(),
            final(self).zombie_spec() == old(self).zombie_spec(),
            final(self).zombie_pml4_spec() == old(self).zombie_pml4_spec(),
    {
        match self.ready_queue.pop_front() {
            Some(next) => {
                self.active_thread = Some(next);
                assert(self.ready_queue@ =~= old(self).queue_spec().drop_first());
                Some(blocked)
            },
            None => {
                self.active_thread = Some(blocked);
                None
            },
        }
    }

    /// Whether the thread `id` is still alive (`wait_on_thread` waits for this to turn false).
    pub fn is_thread_alive(&self, id: usize) -> (r: bool)
        ensures
            r == exists|j: int| 0 <= j < self.alive_spec().len() && (#[trigger] self.alive_spec()[j]).0 == id,
    {
        let mut i: usize = 0;
        while i < self.alive_threads.len()
            invariant
                i <= self.alive_threads@.len(),
                forall|j: int| 0 <= j < i ==> (#[trigger] self.alive_threads@[j]).0 != id,
            decreases self.alive_threads@.len() - i,
        {
            if self.alive_threads[i].0 == id {
                assert(self.alive_spec()[i as int].0 == id);
                return true;
            }
            i = i + 1;
        }
        false
    }

    /// Whether some thread of the scheduler, living, waiting or active, has id
    /// `id`; a new thread must have an id that none has.
    pub fn knows_thread(&self, id: usize) -> (r: bool)
        ensures
            r == !self.fresh_id(id),
    {
        if let Some(a) = &self.active_thread {
            if a.get_id() == id {
                return true;
            }
        }
        if self.is_thread_alive(id) {
            return true;
        }
        let mut i: usize = 0;
        while i < self.ready_queue.len()
            invariant
                i <= self.queue_spec().len(),
                forall|j: int| 0 <= j < i ==> (#[trigger] self.queue_spec()[j]).id_spec() != id,
            decreases self.queue_spec().len() - i,
        {
            if self.ready_queue[i].get_id() == id {
                return true;
            }
            i = i + 1;
        }
        false
    }

    /// The number of living threads.
    pub fn thread_count(&self) -> (r: usize)
        ensures
            r == self.alive_spec().len(),
    {
        self.alive_threads.len()
    }

    /// The living threads, for listing them.
    pub fn alive_threads(&self) -> (r: &Vec<AliveEntry>)
        ensures
            r@ == self.alive_spec(),
    {
        &self.alive_threads
    }
}

/// `size` rounded up to whole pages.
pub open spec fn page_aligned(size: int) -> int {
    ((size + PAGE_SIZE - 1) / (PAGE_SIZE as int)) * (PAGE_SIZE as int)
}

/// The memory areas of a new process whose program has `app_size` bytes: its code
/// from `USER_CODE_VIRT_START`, in whole pages, and its stack.
pub open spec fn process_vmas(app_size: int) -> (int, int) {
    (USER_CODE_VIRT_START as int, USER_CODE_VIRT_START + page_aligned(app_size))
}

/// Register program `app_name` (of `app_size` bytes, or not found) as a new
/// process with its code and stack areas. Returns the new process id, or none
/// when the program was not found or its areas overlap.
fn register_process(
    processes: &mut ProcessTable,
    pids: &mut IdCounter,
    app_name: &str,
    app_size: Option<u64>,
) -> (r: Option<usize>)
    requires
        old(processes).wf(),
        app_size matches Some(sz) ==> sz + PAGE_SIZE - 1 + USER_CODE_VIRT_START <= u64::MAX,
    ensures
        final(processes).wf(),
        old(processes).vmas_apart() ==> final(processes).vmas_apart(),
        app_size is None ==> r is None && final(processes).view() == old(processes).view() && *final(pids)
            == *old(pids),
        app_size matches Some(sz) ==> {
            let pid = old(pids).peek();
            let code_end = USER_CODE_VIRT_START + page_aligned(sz as int);
            &&& final(pids).peek() == if pid == usize::MAX { 0 } else { pid + 1 }
            &&& if USER_STACK_VIRT_START < code_end {
                &&& r is None
                &&& final(processes).view() == old(processes).view().remove(pid)
            } else {
                let p = final(processes).view()[pid];
                &&& r == Some(pid)
                &&& final(processes).view().dom() == old(processes).view().dom().insert(pid)
                &&& p.id_spec() == pid
                &&& p.name_spec() == app_name@
                &&& p.thread_count_spec() == 1
                &&& p.vmas_spec().len() == 2
                &&& p.vmas_spec()[0].start_spec() == USER_CODE_VIRT_START
                &&& p.vmas_spec()[0].end_spec() == code_end
                &&& p.vmas_spec()[0].typ_spec() == VmaType::Code
                &&& p.vmas_spec()[1].start_spec() == USER_STACK_VIRT_START
                &&& p.vmas_spec()[1].end_spec() == USER_STACK_VIRT_END
                &&& p.vmas_spec()[1].typ_spec() == VmaType::Stack
                &&& forall|q: usize| q != pid && #[trigger] old(processes).view().contains_key(q)
                    ==> final(processes).view()[q] == old(processes).view()[q]
            }
        },
{
    let app_size = match app_size {
        Some(sz) => sz,
        None => {
            return None;
        },
    };
    let process = Process::new(pids, app_name);
    let pid = process.get_id();
    add_process(processes, process);
    let ghost after_add = processes.view();
    let rounded: u64 = app_size + PAGE_SIZE as u64 - 1;
    let aligned_app_size = rounded & !(PAGE_SIZE as u64 - 1);
    assert(rounded & !4095u64 == (rounded / 4096) * 4096) by (bit_vector);
    let code_vma = VMA::new(USER_CODE_VIRT_START, USER_CODE_VIRT_START + aligned_app_size, VmaType::Code);
    let stack_vma = VMA::new(USER_STACK_VIRT_START, USER_STACK_VIRT_END, VmaType::Stack);
    proof {
        assert(after_add[pid].vmas_spec().len() == 0);
    }
    let code_added = add_vma(processes, pid, code_vma);
    proof {
        assert(code_added is Ok);
        assert(processes.view()[pid].vmas_spec() == seq![code_vma]);
    }
    let stack_added = add_vma(processes, pid, stack_vma);
    if stack_added.is_err() {
        proof {
            assert(processes.view()[pid].vmas_spec()[0] == code_vma);
        }
        remove_process(processes, pid);
        assert(processes.view() =~= old(processes).view().remove(pid));
        return None;
    }
    proof {
        assert(!code_vma.overlaps_spec(stack_vma)) by {
            assert(!(exists|i: int|
                0 <= i < seq![code_vma].len() && (#[trigger] seq![code_vma][i]).overlaps_spec(stack_vma)));
            assert(seq![code_vma][0] == code_vma);
        }
        assert(processes.view().dom() =~= old(processes).view().dom().insert(pid));
        assert forall|q: usize| q != pid && #[trigger] old(processes).view().contains_key(q) implies processes.view()[q]
            == old(processes).view()[q] by {
            assert(after_add.contains_key(q));
            assert(after_add[q] == old(processes).view()[q]);
        }
    }
    Some(pid)
}

impl Scheduler {
    /// Register program `app_name` (of `app_size` bytes, or not found) as a new
    /// process with its code and stack areas, and ready its first thread `thread`
    /// (none when the program could not be loaded). Returns the new process id,
    /// or 0 when the program was not found, its areas overlap or it could not be
    /// loaded; then no process is left registered and no thread is readied.
    pub fn spawn_process(
        &mut self,
        processes: &mut ProcessTable,
        pids: &mut IdCounter,
        app_name: &str,
        app_size: Option<u64>,
        thread: Option<Box<Thread>>,
    ) -> (r: u64)
        requires
            old(processes).wf(),
            old(self).wf(),
            thread matches Some(t) ==> old(self).fresh_id(t.id_spec()),
            app_size matches Some(sz) ==> sz + PAGE_SIZE - 1 + USER_CODE_VIRT_START <= u64::MAX,
        ensures
            final(processes).wf(),
            old(processes).vmas_apart() ==> final(processes).vmas_apart(),
            final(self).wf(),
            app_size is None ==> r == 0 && final(processes).view() == old(processes).view() && *final(pids)
                == *old(pids) && *final(self) == *old(self),
            app_size matches Some(sz) ==> {
                let pid = old(pids).peek();
                let code_end = USER_CODE_VIRT_START + page_aligned(sz as int);
                &&& final(pids).peek() == if pid == usize::MAX { 0 } else { pid + 1 }
                &&& if USER_STACK_VIRT_START < code_end || thread is None {
                    &&& r == 0
                    &&& final(processes).view() == old(processes).view().remove(pid)
                    &&& *final(self) == *old(self)
                } else {
                    let p = final(processes).view()[pid];
                    let t = thread.unwrap();
                    &&& r == pid as u64
                    &&& final(self).active_spec() == old(self).active_spec()
                    &&& final(self).queue_spec().drop_last() == old(self).queue_spec()
                    &&& final(self).queue_spec().len() == old(self).queue_spec().len() + 1
                    &&& final(self).queue_spec().last().pid_spec() == pid
                    &&& final(self).queue_spec().last().id_spec() == t.id_spec()
                    &&& final(self).alive_spec().drop_last() == old(self).alive_spec()
                    &&& final(self).alive_spec().len() == old(self).alive_spec().len() + 1
                    &&& final(self).alive_spec().last().0 == t.id_spec()
                    &&& final(self).alive_spec().last().1 == pid
                    &&& final(self).alive_spec().last().2@ == t.name_spec()
                    &&& final(processes).view().dom() == old(processes).view().dom().insert(pid)
                    &&& p.id_spec() == pid
                    &&& p.name_spec() == app_name@
                    &&& p.thread_count_spec() == 1
                    &&& p.vmas_spec().len() == 2
                    &&& p.vmas_spec()[0].start_spec() == USER_CODE_VIRT_START
                    &&& p.vmas_spec()[0].end_spec() == code_end
                    &&& p.vmas_spec()[0].typ_spec() == VmaType::Code
                    &&& p.vmas_spec()[1].start_spec() == USER_STACK_VIRT_START
                    &&& p.vmas_spec()[1].end_spec() == USER_STACK_VIRT_END
                    &&& p.vmas_spec()[1].typ_spec() == VmaType::Stack
                    &&& forall|q: usize| q != pid && #[trigger] old(processes).view().contains_key(q)
                        ==> final(processes).view()[q] == old(processes).view()[q]
                }
            },
    {
        let registered = register_process(processes, pids, app_name, app_size);
        match registered {
            Some(pid) => match thread {
                Some(t) => {
                    self.start_process(t, pid);
                    pid as u64
                },
                None => {
                    let ghost after = processes.view();
                    remove_process(processes, pid);
                    proof {
                        assert(processes.view() =~= old(processes).view().remove(pid)) by {
                            assert(after.dom() == old(processes).view().dom().insert(pid));
                        }
                    }
                    0
                },
            },
            None => 0,
        }
    }
}

impl Scheduler {
    /// Start the first thread of process `pid`: it joins the ready queue.
    pub fn start_process(&mut self, thread: Box<Thread>, pid: usize)
        requires
            old(self).wf(),
            old(self).fresh_id(thread.id_spec()),
        ensures
            final(self).wf(),
            final(self).active_spec() == old(self).active_spec(),
            final(self).queue_spec().len() == old(self).queue_spec().len() + 1,
            final(self).queue_spec().drop_last() == old(self).queue_spec(),
            final(self).queue_spec().last().pid_spec() == pid,
            final(self).queue_spec().last().id_spec() == thread.id_spec(),
            final(self).alive_spec().drop_last() == old(self).alive_spec(),
            final(self).alive_spec().len() == old(self).alive_spec().len() + 1,
            final(self).alive_spec().last().0 == thread.id_spec(),
            final(self).alive_spec().last().1 == pid,
            final(self).alive_spec().last().2@ == thread.name_spec(),
    {
        let mut thread = thread;
        thread.set_pid(pid);
        self.ready(thread);
    }
}

/// One line of the thread listing.
pub open spec fn ps_line(e: AliveEntry) -> Seq<u8> {
    bytes_of("   tid:") + decimal(e.0 as nat) + bytes_of(", pid:") + decimal(e.1 as nat) + bytes_of(", name:")
        + vstd::utf8::encode_utf8(e.2@)
}

/// The lines of `alive`, separated by line feeds.
pub open spec fn ps_lines(alive: Seq<AliveEntry>) -> Seq<u8>
    decreases alive.len(),
{
    if alive.len() == 0 {
        Seq::empty()
    } else if alive.len() == 1 {
        ps_line(alive[0])
    } else {
        ps_lines(alive.drop_last()) + seq![0x0au8] + ps_line(alive.last())
    }
}

impl Scheduler {
    /// The listing of the living threads: a heading, then one line per thread with
    /// its id, process id and name.
    pub fn to_string(&self) -> (r: Vec<u8>)
        ensures
            r@ == bytes_of("processes:\n") + ps_lines(self.alive_spec()),
    {
        let mut out: Vec<u8> = Vec::new();
        push_str(&mut out, "processes:\n");
        let ghost head = out@;
        let mut i: usize = 0;
        while i < self.alive_threads.len()
            invariant
                i <= self.alive_spec().len(),
                head == bytes_of("processes:\n"),
                out@ == head + ps_lines(self.alive_spec().subrange(0, i as int)),
            decreases self.alive_spec().len() - i,
        {
            let ghost before = out@;
            if i > 0 {
                out.push(0x0a);
            }
            let e = &self.alive_threads[i];
            push_str(&mut out, "   tid:");
            push_decimal(&mut out, e.0 as u64);
            push_str(&mut out, ", pid:");
            push_decimal(&mut out, e.1 as u64);
            push_str(&mut out, ", name:");
            push_str(&mut out, e.2.as_str());
            proof {
                let sub = self.alive_spec().subrange(0, i + 1);
                assert(sub.drop_last() == self.alive_spec().subrange(0, i as int));
                assert(sub.last() == self.alive_spec()[i as int]);
                if i == 0 {
                    assert(sub.len() == 1);
                    assert(out@ == head + ps_line(sub[0]));
                } else {
                    assert(out@ == head + ps_lines(sub.drop_last()) + seq![0x0au8] + ps_line(sub.last()));
                }
            }
            i = i + 1;
        }
        assert(self.alive_spec().subrange(0, self.alive_spec().len() as int) == self.alive_spec());
        out
    }
}

} // verus!
