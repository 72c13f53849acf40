use vstd::prelude::*;
use std::collections::BTreeMap;
use vstd::std_specs::iter::IteratorSpec;
use crate::kernel::processes::vma::{VmaType, VMA};
use crate::library::id_counter::IdCounter;

verus! {

/// A process: its id, the name of its program, its memory areas and how many
/// threads it has started.
pub struct Process {
    id: usize,
    name: String,
    pub vmas: Vec<VMA>,
    pub thread_count: usize,
}

impl Process {
    pub closed spec fn id_spec(&self) -> usize {
        self.id
    }

    pub closed spec fn name_spec(&self) -> Seq<char> {
        self.name@
    }

    pub closed spec fn vmas_spec(&self) -> Seq<VMA> {
        self.vmas@
    }

    pub closed spec fn thread_count_spec(&self) -> usize {
        self.thread_count
    }

    /// Create a process for the program `name`; its id is the next one of `pids`.
    pub fn new(pids: &mut IdCounter, name: &str) -> (r: Process)
        ensures
            r.id_spec() == old(pids).peek(),
            r.name_spec() == name@,
            r.vmas_spec() == Seq::<VMA>::empty(),
            r.thread_count_spec() == 1,
            final(pids).peek() == if old(pids).peek() == usize::MAX {
                0
            } else {
                old(pids).peek() + 1
            },
    {
        let pid = pids.next_id();
        Process { id: pid, name: name.to_owned(), vmas: Vec::new(), thread_count: 1 }
    }

    pub fn get_id(&self) -> (r: usize)
        ensures
            r == self.id_spec(),
    {
        self.id
    }

    pub fn get_name(&self) -> (r: String)
        ensures
            r@ == self.name_spec(),
    {
        self.name.clone()
    }
}

/// No two areas of `vmas` overlap.
pub open spec fn vmas_disjoint(vmas: Seq<VMA>) -> bool {
    forall|i: int, j: int|
        0 <= i < vmas.len() && 0 <= j < vmas.len() && i != j ==> !(#[trigger] vmas[i]).overlaps_spec(
            #[trigger] vmas[j],
        )
}

/// `addr` lies in a stack area of `vmas`.
pub open spec fn in_stack_vma(vmas: Seq<VMA>, addr: int) -> bool {
    exists|i: int|
        0 <= i < vmas.len() && (#[trigger] vmas[i]).typ_spec() == VmaType::Stack && vmas[i].holds(
            addr,
        )
}

/// All processes of the system, by process id.
pub struct ProcessTable {
    map: BTreeMap<usize, Process>,
}

impl ProcessTable {
    pub closed spec fn view(&self) -> Map<usize, Process> {
        self.map@
    }

    /// Finitely many processes, each stored under its own id.
    pub open spec fn wf(&self) -> bool {
        &&& self.view().dom().finite()
        &&& forall|pid: usize| #[trigger] self.view().contains_key(pid) ==> self.view()[pid].id_spec() == pid
    }

    /// The memory areas of each process are apart: no two of them overlap.
    pub open spec fn vmas_apart(&self) -> bool {
        forall|pid: usize| #[trigger] self.view().contains_key(pid) ==> vmas_disjoint(self.view()[pid].vmas_spec())
    }

    pub fn new() -> (r: ProcessTable)
        ensures
            r.wf(),
            r.vmas_apart(),
            r.view() == Map::<usize, Process>::empty(),
    {
        ProcessTable { map: BTreeMap::new() }
    }
}

/// Hands out the index of the next thread of process `pid`, or 0 if there is no such process.
pub fn next_thread_index(table: &mut ProcessTable, pid: usize) -> (r: usize)
    requires
        old(table).wf(),
        old(table).view().contains_key(pid) ==> old(table).view()[pid].thread_count_spec() < usize::MAX,
    ensures
        final(table).wf(),
        old(table).vmas_apart() ==> final(table).vmas_apart(),
        if old(table).view().contains_key(pid) {
            let p = old(table).view()[pid];
            &&& r == p.thread_count_spec()
            &&& final(table).view().dom() == old(table).view().dom()
            &&& final(table).view()[pid].thread_count_spec() == p.thread_count_spec() + 1
            &&& final(table).view()[pid].id_spec() == p.id_spec()
            &&& final(table).view()[pid].name_spec() == p.name_spec()
            &&& final(table).view()[pid].vmas_spec() == p.vmas_spec()
            &&& forall|q: usize| q != pid && #[trigger] old(table).view().contains_key(q) ==> final(table).view()[q] == old(table).view()[q]
        } else {
            &&& r == 0
            &&& final(table).view() == old(table).view()
        },
{
    match table.map.remove(&pid) {
        Some(mut process) => {
            let idx = process.thread_count;
            process.thread_count = process.thread_count + 1;
            table.map.insert(pid, process);
            assert(table.view() =~= old(table).view().insert(pid, process));
            idx
        },
        None => {
            assert(table.view() =~= old(table).view());
            0
        },
    }
}

/// Number of processes.
pub fn process_count(table: &ProcessTable) -> (r: usize)
    ensures
        r == table.view().len(),
{
    table.map.len()
}

/// Registers `process` under its id, replacing a process of the same id. The
/// memory areas of the processes stay apart if those of `process` are (a new
/// process has none).
pub fn add_process(table: &mut ProcessTable, process: Process)
    requires
        old(table).wf(),
    ensures
        final(table).wf(),
        old(table).vmas_apart() && vmas_disjoint(process.vmas_spec()) ==> final(table).vmas_apart(),
        final(table).view() == old(table).view().insert(process.id_spec(), process),
        !old(table).view().contains_key(process.id_spec()) ==> final(table).view().len() == old(
            table,
        ).view().len() + 1,
        old(table).view().contains_key(process.id_spec()) ==> final(table).view().len() == old(
            table,
        ).view().len(),
{
    broadcast use vstd::std_specs::btree::group_btree_axioms;

    let id = process.id;
    let ghost vs = process.vmas_spec();
    table.map.insert(id, process);
    assert forall|pid: usize| #[trigger] table.view().contains_key(pid) implies table.view()[pid].id_spec() == pid
        && (old(table).vmas_apart() && vmas_disjoint(vs) ==> vmas_disjoint(table.view()[pid].vmas_spec())) by {
        if pid != id {
            assert(old(table).view().contains_key(pid));
        }
    }
    assert(table.view().dom() =~= old(table).view().dom().insert(id));
}

/// Removes the process `process_id`, if there is one.
pub fn remove_process(table: &mut ProcessTable, process_id: usize)
    requires
        old(table).wf(),
    ensures
        final(table).wf(),
        old(table).vmas_apart() ==> final(table).vmas_apart(),
        final(table).view() == old(table).view().remove(process_id),
{
    broadcast use vstd::std_specs::btree::group_btree_axioms;

    table.map.remove(&process_id);
}

/// The program name of process `process_id`.
pub fn get_app_name(table: &ProcessTable, process_id: usize) -> (r: Option<String>)
    ensures
        match r {
            Some(n) => table.view().contains_key(process_id) && n@ == table.view()[process_id].name_spec(),
            None => !table.view().contains_key(process_id),
        },
{
    match table.map.get(&process_id) {
        Some(p) => Some(p.get_name()),
        None => None,
    }
}

/// Whether `virt_addr` lies in a stack area of process `process_id`.
pub fn address_is_stack_vma(table: &ProcessTable, process_id: usize, virt_addr: u64) -> (r: bool)
    ensures
        r == (table.view().contains_key(process_id) && in_stack_vma(
            table.view()[process_id].vmas_spec(),
            virt_addr as int,
        )),
{
    if let Some(process) = table.map.get(&process_id) {
        let ghost vm = table.view()[process_id].vmas_spec();
        assert(process.vmas@ == vm);
        let mut i: usize = 0;
        while i < process.vmas.len()
            invariant
                process.vmas@ == vm,
                table.view().contains_key(process_id),
                vm == table.view()[process_id].vmas_spec(),
                i <= vm.len(),
                forall|j: int|
                    0 <= j < i ==> !((#[trigger] vm[j]).typ_spec() == VmaType::Stack
                        && vm[j].holds(virt_addr as int)),
            decreases vm.len() - i,
        {
            let vma = &process.vmas[i];
            if vma.get_type() == VmaType::Stack && vma.is_inside(virt_addr) {
                proof {
                    assert(vm[i as int] == *vma);
                    assert(in_stack_vma(vm, virt_addr as int));
                }
                return true;
            }
            i = i + 1;
        }
    }
    false
}

/// Adds `vma` to process `process_id`, unless there is no such process or `vma`
/// overlaps one of its areas.
pub fn add_vma(table: &mut ProcessTable, process_id: usize, vma: VMA) -> (r: Result<(), &'static str>)
    requires
        old(table).wf(),
    ensures
        final(table).wf(),
        old(table).vmas_apart() ==> final(table).vmas_apart(),
        !old(table).view().contains_key(process_id) ==> r == Err::<(), &'static str>("Process not found")
            && final(table).view() == old(table).view(),
        old(table).view().contains_key(process_id) ==> {
            let p = old(table).view()[process_id];
            if exists|i: int| 0 <= i < p.vmas_spec().len() && (#[trigger] p.vmas_spec()[i]).overlaps_spec(vma) {
                &&& r == Err::<(), &'static str>("VMA overlaps with existing region")
                &&& final(table).view() == old(table).view()
            } else {
                &&& r is Ok
                &&& final(table).view().dom() == old(table).view().dom()
                &&& final(table).view()[process_id].vmas_spec() == p.vmas_spec().push(vma)
                &&& final(table).view()[process_id].id_spec() == p.id_spec()
                &&& final(table).view()[process_id].name_spec() == p.name_spec()
                &&& final(table).view()[process_id].thread_count_spec() == p.thread_count_spec()
                &&& forall|q: usize| q != process_id && #[trigger] old(table).view().contains_key(q) ==> final(table).view()[q] == old(table).view()[q]
            }
        },
{
    let mut process = match table.map.remove(&process_id) {
        Some(p) => p,
        None => {
            assert(table.view() =~= old(table).view());
            return Err("Process not found");
        },
    };
    let ghost p = process;
    assert(old(table).view().contains_key(process_id) && old(table).view()[process_id] == p);
    assert(table.view() == old(table).view().remove(process_id));
    let mut i: usize = 0;
    while i < process.vmas.len()
        invariant
            process == p,
            old(table).wf(),
            old(table).view().contains_key(process_id) && old(table).view()[process_id] == p,
            table.view() == old(table).view().remove(process_id),
            i <= p.vmas_spec().len(),
            forall|j: int| 0 <= j < i ==> !(#[trigger] p.vmas_spec()[j]).overlaps_spec(vma),
        decreases p.vmas_spec().len() - i,
    {
        if process.vmas[i].overlaps(&vma) {
            table.map.insert(process_id, process);
            assert(table.view() =~= old(table).view());
            return Err("VMA overlaps with existing region");
        }
        i = i + 1;
    }
    process.vmas.push(vma);
    proof {
        if old(table).vmas_apart() {
            law_add_vma_keeps_vmas_disjoint(p.vmas_spec(), vma);
        }
    }
    table.map.insert(process_id, process);
    assert forall|pid: usize| #[trigger] table.view().contains_key(pid) implies table.view()[pid].id_spec() == pid
        && (old(table).vmas_apart() ==> vmas_disjoint(table.view()[pid].vmas_spec())) by {
        if pid != process_id {
            assert(old(table).view().contains_key(pid));
        }
    }
    assert(table.view().dom() =~= old(table).view().dom());
    Ok(())
}

/// The name, id and memory areas of process `process_id`, for printing.
pub fn dump_process_vmas(table: &ProcessTable, process_id: usize) -> (r: Option<(String, usize, Vec<VMA>)>)
    ensures
        match r {
            Some(d) => {
                &&& table.view().contains_key(process_id)
                &&& d.0@ == table.view()[process_id].name_spec()
                &&& d.1 == table.view()[process_id].id_spec()
                &&& d.2@ == table.view()[process_id].vmas_spec()
            },
            None => !table.view().contains_key(process_id),
        },
{
    match table.map.get(&process_id) {
        Some(process) => Some((process.get_name(), process.get_id(), process.vmas.clone())),
        None => None,
    }
}

/// The keys of a map, as its key iterator gives them, rise strictly.
proof fn lemma_keys_rise(s: Seq<&usize>)
    requires
        vstd::std_specs::btree::increasing_seq(s),
    ensures
        forall|i: int, j: int| 0 <= i < j < s.len() ==> *s[i] < *s[j],
{
    broadcast use vstd::std_specs::btree::group_btree_axioms;
    broadcast use vstd::laws_cmp::group_laws_cmp;

    assert(vstd::laws_cmp::obeys_cmp::<usize>());
    assert(vstd::laws_cmp::obeys_cmp::<&usize>());
    assert forall|i: int, j: int| 0 <= i < j < s.len() implies *s[i] < *s[j] by {
        assert(vstd::std_specs::cmp::OrdSpec::cmp_spec(&s[i], &s[j]) is Less);
    }
}

/// The name, id and memory areas of every process, by increasing process id.
pub fn dump_all_process_vmas(table: &ProcessTable) -> (r: Vec<(String, usize, Vec<VMA>)>)
    ensures
        r@.len() == table.view().dom().len(),
        forall|i: int, j: int| 0 <= i < j < r@.len() ==> (#[trigger] r@[i]).1 < (#[trigger] r@[j]).1,
        forall|pid: usize| #[trigger] table.view().contains_key(pid) <==> exists|i: int|
            0 <= i < r@.len() && (#[trigger] r@[i]).1 == pid,
        forall|i: int|
            0 <= i < r@.len() ==> {
                let pid = (#[trigger] r@[i]).1;
                &&& table.view().contains_key(pid)
                &&& r@[i].0@ == table.view()[pid].name_spec()
                &&& r@[i].2@ == table.view()[pid].vmas_spec()
            },
{
    broadcast use vstd::std_specs::btree::group_btree_axioms;

    let mut out: Vec<(String, usize, Vec<VMA>)> = Vec::new();
    let ghost rem = table.map.keys().remaining();
    let ghost keys = rem.unref();
    proof {
        lemma_keys_rise(rem);
    }
    for pid in it: table.map.keys()
        invariant
            it.seq() == rem,
            keys == rem.unref(),
            keys.to_set() == table.view().dom(),
            keys.len() == table.view().dom().len(),
            forall|i: int, j: int| 0 <= i < j < rem.len() ==> *rem[i] < *rem[j],
            out@.len() == it.index(),
            forall|i: int| 0 <= i < out@.len() ==> (#[trigger] out@[i]).1 == keys[i],
            forall|i: int|
                0 <= i < out@.len() ==> {
                    let pid = (#[trigger] out@[i]).1;
                    &&& table.view().contains_key(pid)
                    &&& out@[i].0@ == table.view()[pid].name_spec()
                    &&& out@[i].2@ == table.view()[pid].vmas_spec()
                },
    {
        let k = *pid;
        assert(keys.contains(k));
        match table.map.get(&k) {
            Some(process) => {
                out.push((process.get_name(), k, process.vmas.clone()));
            },
            None => {},
        }
    }
    proof {
        assert(out@.len() == keys.len());
        assert forall|pid: usize| #[trigger] table.view().contains_key(pid) <==> exists|i: int|
            0 <= i < out@.len() && (#[trigger] out@[i]).1 == pid by {
            if table.view().contains_key(pid) {
                assert(keys.to_set().contains(pid));
                assert(keys.contains(pid));
                let i = choose|i: int| 0 <= i < keys.len() && keys[i] == pid;
                assert(out@[i].1 == pid);
            }
        }
    }
    out
}

/// How many threads process `pid` has started, or 0 if there is no such process.
pub fn thread_count_of(table: &ProcessTable, pid: usize) -> (r: usize)
    ensures
        table.view().contains_key(pid) ==> r == table.view()[pid].thread_count_spec(),
        !table.view().contains_key(pid) ==> r == 0,
{
    match table.map.get(&pid) {
        Some(p) => p.thread_count,
        None => 0,
    }
}

/// Whether process `pid` exists.
pub fn is_process_alive(table: &ProcessTable, pid: usize) -> (r: bool)
    ensures
        r == table.view().contains_key(pid),
{
    table.map.contains_key(&pid)
}

/// A successful `add_vma` keeps the areas of the process pairwise disjoint.
pub proof fn law_add_vma_keeps_vmas_disjoint(old_vmas: Seq<VMA>, vma: VMA)
    requires
        vmas_disjoint(old_vmas),
        !exists|i: int| 0 <= i < old_vmas.len() && (#[trigger] old_vmas[i]).overlaps_spec(vma),
    ensures
        vmas_disjoint(old_vmas.push(vma)),
{
    let s = old_vmas.push(vma);
    assert forall|i: int, j: int| 0 <= i < s.len() && 0 <= j < s.len() && i != j implies !(#[trigger] s[i]).overlaps_spec(
        #[trigger] s[j],
    ) by {
        if i == old_vmas.len() {
            assert(!old_vmas[j].overlaps_spec(vma));
        } else if j == old_vmas.len() {
            assert(!old_vmas[i].overlaps_spec(vma));
        }
    }
}

} // verus!
