use vstd::prelude::*;
use vstd::string::StringSliceAdditionalSpecFns;
use crate::consts::{STACK_ENTRY_SIZE, STACK_SIZE, USER_STACK_VIRT_END};
use crate::library::id_counter::IdCounter;

verus! {

/// Number of entries of a kernel stack.
pub const KERNEL_STACK_ENTRIES: usize = 65536;

/// Return address placed at the very top of a new kernel stack; it is never used.
pub const DUMMY_RETURN_ADDRESS: u64 = 0x131155;

/// Flags register of a new thread: only the reserved bit, so interrupts are off.
pub const INITIAL_RFLAGS: u64 = 0x2;

/// Flags register in user mode: the interrupt flag is set.
pub const USER_RFLAGS: u64 = 0x200;

/// Selector of the user data segment (index 5, privilege level 3).
pub const USER_DATA_SELECTOR: u64 = 43;

/// Selector of the user code segment (index 4, privilege level 3).
pub const USER_CODE_SELECTOR: u64 = 35;

/// Hands out the next thread id.
pub fn next_id(counter: &mut IdCounter) -> (r: usize)
    ensures
        r == old(counter).peek(),
        final(counter).peek() == if old(counter).peek() == usize::MAX {
            0
        } else {
            old(counter).peek() + 1
        },
{
    counter.next_id()
}

/// The number of bytes of the UTF-8 encoding of `s`.
pub open spec fn utf8_len(s: Seq<char>) -> int {
    vstd::utf8::encode_utf8(s).len() as int
}

/// The number of bytes of the arguments `args[i..]`.
pub open spec fn args_bytes_from(args: Seq<String>, i: int) -> int
    decreases args.len() - i,
{
    if i >= args.len() || i < 0 {
        0
    } else {
        utf8_len(args[i]@) + args_bytes_from(args, i + 1)
    }
}

proof fn lemma_args_bytes_nonneg(args: Seq<String>, i: int)
    ensures
        args_bytes_from(args, i) >= 0,
    decreases args.len() - i,
{
    if 0 <= i < args.len() {
        lemma_args_bytes_nonneg(args, i + 1);
    }
}

/// The 18 entries, from the bottom up, that a new kernel stack ends with: they are
/// restored by the thread start routine, which then returns into `kickoff` with
/// the thread as its first argument.
pub open spec fn kernel_start_frame(kickoff: u64, thread_addr: u64) -> Seq<u64> {
    seq![
        INITIAL_RFLAGS, 0, thread_addr, 0, 0, 0, 0, 0, 0, 0, 0, 0, 0, 0, 0, 0,
        kickoff, DUMMY_RETURN_ADDRESS,
    ]
}

/// The 7 entries, from the bottom up, that the switch to user mode puts at the top
/// of the kernel stack: the argument count and array for the entry function, then
/// the frame that `iretq` pops.
pub open spec fn user_mode_frame(entry: u64, array_base: u64, argc: u64) -> Seq<u64> {
    seq![argc, array_base, entry, USER_CODE_SELECTOR, USER_RFLAGS, array_base, USER_DATA_SELECTOR]
}

/// Where the arguments of a user thread go on its user stack.
pub struct UserStackPlan {
    /// Address of the copy of each argument.
    pub string_addrs: Vec<u64>,
    /// Address of the array of (address, length) pairs, 16-byte aligned; it is
    /// also the user stack pointer.
    pub array_base: u64,
}

/// A thread: its ids, kernel stack, user stack top, address space and entry function.
pub struct Thread {
    id: usize,
    pid: usize,
    is_kernel_thread: bool,
    kernel_stack: Vec<u64>,
    stack_ptr: usize,
    user_stack_top: u64,
    pml4: u64,
    entry: u64,
    args: Vec<String>,
    name: String,
}

impl Thread {
    pub closed spec fn id_spec(&self) -> usize {
        self.id
    }

    pub closed spec fn pid_spec(&self) -> usize {
        self.pid
    }

    pub closed spec fn name_spec(&self) -> Seq<char> {
        self.name@
    }

    pub closed spec fn is_kernel_spec(&self) -> bool {
        self.is_kernel_thread
    }

    pub closed spec fn stack_spec(&self) -> Seq<u64> {
        self.kernel_stack@
    }

    pub closed spec fn stack_ptr_spec(&self) -> usize {
        self.stack_ptr
    }

    pub closed spec fn user_stack_top_spec(&self) -> u64 {
        self.user_stack_top
    }

    pub closed spec fn pml4_spec(&self) -> u64 {
        self.pml4
    }

    pub closed spec fn entry_spec(&self) -> u64 {
        self.entry
    }

    pub closed spec fn args_spec(&self) -> Seq<String> {
        self.args@
    }

    /// Create a new kernel thread with the given entry function, running in the
    /// address space `pml4`. Its kernel stack is zeroed; `prepare_kernel_stack`
    /// then lays out the start frame.
    pub fn new_kernel_thread(
        ids: &mut IdCounter,
        entry: u64,
        args: Vec<String>,
        name: String,
        pml4: u64,
    ) -> (r: Box<Thread>)
        ensures
            r.id_spec() == old(ids).peek(),
            final(ids).peek() == if old(ids).peek() == usize::MAX {
                0
            } else {
                old(ids).peek() + 1
            },
            r.pid_spec() == 0,
            r.is_kernel_spec(),
            r.stack_spec().len() == KERNEL_STACK_ENTRIES,
            forall|i: int| 0 <= i < KERNEL_STACK_ENTRIES ==> r.stack_spec()[i] == 0,
            r.user_stack_top_spec() == USER_STACK_VIRT_END,
            r.pml4_spec() == pml4,
            r.entry_spec() == entry,
            r.args_spec() == args@,
            r.name_spec() == name@,
    {
        let kernel_stack = vec![0u64; STACK_SIZE / 8];
        Box::new(
            Thread {
                id: next_id(ids),
                pid: 0,
                is_kernel_thread: true,
                kernel_stack,
                stack_ptr: 0,
                user_stack_top: USER_STACK_VIRT_END,
                pml4,
                entry,
                args,
                name,
            },
        )
    }

    /// Create a new user thread of the existing process `pid`, which shares the
    /// address space `pml4` and has its own user stack below `user_stack_top`.
    pub fn new_user_thread_existing_process(
        ids: &mut IdCounter,
        entry: u64,
        args: Vec<String>,
        name: String,
        pml4: u64,
        pid: usize,
        user_stack_top: u64,
    ) -> (r: Box<Thread>)
        ensures
            r.id_spec() == old(ids).peek(),
            final(ids).peek() == if old(ids).peek() == usize::MAX {
                0
            } else {
                old(ids).peek() + 1
            },
            r.pid_spec() == pid,
            !r.is_kernel_spec(),
            r.stack_spec().len() == KERNEL_STACK_ENTRIES,
            forall|i: int| 0 <= i < KERNEL_STACK_ENTRIES ==> r.stack_spec()[i] == 0,
            r.user_stack_top_spec() == user_stack_top,
            r.pml4_spec() == pml4,
            r.entry_spec() == entry,
            r.args_spec() == args@,
            r.name_spec() == name@,
    {
        let kernel_stack = vec![0u64; STACK_SIZE / 8];
        Box::new(
            Thread {
                id: next_id(ids),
                pid,
                is_kernel_thread: false,
                kernel_stack,
                stack_ptr: 0,
                pml4,
                entry,
                args,
                name,
                user_stack_top,
            },
        )
    }

    /// Marks the thread as a user thread.
    pub fn set_user_thread(&mut self)
        ensures
            !final(self).is_kernel_spec(),
            final(self).id_spec() == old(self).id_spec(),
            final(self).pid_spec() == old(self).pid_spec(),
            final(self).name_spec() == old(self).name_spec(),
            final(self).stack_spec() == old(self).stack_spec(),
            final(self).stack_ptr_spec() == old(self).stack_ptr_spec(),
            final(self).user_stack_top_spec() == old(self).user_stack_top_spec(),
            final(self).pml4_spec() == old(self).pml4_spec(),
            final(self).entry_spec() == old(self).entry_spec(),
            final(self).args_spec() == old(self).args_spec(),
    {
        self.is_kernel_thread = false;
    }

    /// Get the ID of the thread.
    pub fn get_id(&self) -> (r: usize)
        ensures
            r == self.id_spec(),
    {
        self.id
    }

    /// Get the name of the thread.
    pub fn get_name(&self) -> (r: String)
        ensures
            r@ == self.name_spec(),
    {
        self.name.clone()
    }

    pub fn get_pid(&self) -> (r: usize)
        ensures
            r == self.pid_spec(),
    {
        self.pid
    }

    pub fn set_pid(&mut self, pid: usize)
        ensures
            final(self).pid_spec() == pid,
            final(self).id_spec() == old(self).id_spec(),
            final(self).is_kernel_spec() == old(self).is_kernel_spec(),
            final(self).name_spec() == old(self).name_spec(),
            final(self).stack_spec() == old(self).stack_spec(),
            final(self).stack_ptr_spec() == old(self).stack_ptr_spec(),
            final(self).user_stack_top_spec() == old(self).user_stack_top_spec(),
            final(self).pml4_spec() == old(self).pml4_spec(),
            final(self).entry_spec() == old(self).entry_spec(),
            final(self).args_spec() == old(self).args_spec(),
    {
        self.pid = pid;
    }

    pub fn is_kernel_thread(&self) -> (r: bool)
        ensures
            r == self.is_kernel_spec(),
    {
        self.is_kernel_thread
    }

    pub fn get_pml4(&self) -> (r: u64)
        ensures
            r == self.pml4_spec(),
    {
        self.pml4
    }

    pub fn get_entry(&self) -> (r: u64)
        ensures
            r == self.entry_spec(),
    {
        self.entry
    }

    pub fn get_stack_ptr(&self) -> (r: usize)
        ensures
            r == self.stack_ptr_spec(),
    {
        self.stack_ptr
    }

    /// The saved stack pointer, for the context switch to store into.
    pub fn stack_ptr_mut(&mut self) -> (r: &mut usize)
        ensures
            *r == old(self).stack_ptr_spec(),
            final(self).stack_ptr_spec() == *final(r),
            final(self).id_spec() == old(self).id_spec(),
            final(self).pid_spec() == old(self).pid_spec(),
            final(self).is_kernel_spec() == old(self).is_kernel_spec(),
            final(self).name_spec() == old(self).name_spec(),
            final(self).stack_spec() == old(self).stack_spec(),
            final(self).user_stack_top_spec() == old(self).user_stack_top_spec(),
            final(self).pml4_spec() == old(self).pml4_spec(),
            final(self).entry_spec() == old(self).entry_spec(),
            final(self).args_spec() == old(self).args_spec(),
    {
        &mut self.stack_ptr
    }

    pub fn kernel_stack(&self) -> (r: &Vec<u64>)
        ensures
            r@ == self.stack_spec(),
    {
        &self.kernel_stack
    }

    pub fn get_args(&self) -> (r: &Vec<String>)
        ensures
            r@ == self.args_spec(),
    {
        &self.args
    }

    /// Prepare the stack of a newly created thread so that the thread start routine
    /// can restore the registers from it and return to `kickoff` with the thread
    /// itself (at `thread_addr`) as parameter. `stack_top` is the address just above
    /// the kernel stack.
    pub fn prepare_kernel_stack(&mut self, kickoff: u64, thread_addr: u64, stack_top: usize)
        requires
            old(self).stack_spec().len() >= 18,
            stack_top >= STACK_ENTRY_SIZE * 18,
        ensures
            final(self).stack_spec().len() == old(self).stack_spec().len(),
            final(self).stack_spec().subrange(
                final(self).stack_spec().len() - 18,
                final(self).stack_spec().len() as int,
            ) == kernel_start_frame(kickoff, thread_addr),
            forall|i: int|
                0 <= i < old(self).stack_spec().len() - 18 ==> #[trigger] final(self).stack_spec()[i]
                    == old(self).stack_spec()[i],
            final(self).stack_ptr_spec() == stack_top - STACK_ENTRY_SIZE * 18,
            final(self).id_spec() == old(self).id_spec(),
            final(self).pid_spec() == old(self).pid_spec(),
            final(self).is_kernel_spec() == old(self).is_kernel_spec(),
            final(self).name_spec() == old(self).name_spec(),
            final(self).user_stack_top_spec() == old(self).user_stack_top_spec(),
            final(self).pml4_spec() == old(self).pml4_spec(),
            final(self).entry_spec() == old(self).entry_spec(),
            final(self).args_spec() == old(self).args_spec(),
    {
        let length = self.kernel_stack.len();
        self.kernel_stack.set(length - 1, DUMMY_RETURN_ADDRESS);
        self.kernel_stack.set(length - 2, kickoff);
        self.kernel_stack.set(length - 3, 0);  // r8
        self.kernel_stack.set(length - 4, 0);  // r9
        self.kernel_stack.set(length - 5, 0);  // r10
        self.kernel_stack.set(length - 6, 0);  // r11
        self.kernel_stack.set(length - 7, 0);  // r12
        self.kernel_stack.set(length - 8, 0);  // r13
        self.kernel_stack.set(length - 9, 0);  // r14
        self.kernel_stack.set(length - 10, 0);  // r15
        self.kernel_stack.set(length - 11, 0);  // rax
        self.kernel_stack.set(length - 12, 0);  // rbx
        self.kernel_stack.set(length - 13, 0);  // rcx
        self.kernel_stack.set(length - 14, 0);  // rdx
        self.kernel_stack.set(length - 15, 0);  // rsi
        self.kernel_stack.set(length - 16, thread_addr);  // rdi: first parameter of kickoff
        self.kernel_stack.set(length - 17, 0);  // rbp
        self.kernel_stack.set(length - 18, INITIAL_RFLAGS);  // interrupts disabled
        self.stack_ptr = stack_top - STACK_ENTRY_SIZE * 18;
        assert(self.kernel_stack@.subrange(length - 18, length as int) =~= kernel_start_frame(
            kickoff,
            thread_addr,
        ));
    }

    /// Where the switch to user mode puts the arguments on the user stack: each
    /// argument is copied below the previous one (the last argument highest), and
    /// below them, aligned down to 16 bytes, the array of (address, length) pairs.
    pub fn plan_user_stack(&self) -> (r: UserStackPlan)
        requires
            self.user_stack_top_spec() >= args_bytes_from(self.args_spec(), 0) + 16
                * self.args_spec().len(),
        ensures
            r.string_addrs@.len() == self.args_spec().len(),
            forall|i: int|
                0 <= i < r.string_addrs@.len() ==> #[trigger] r.string_addrs@[i]
                    == self.user_stack_top_spec() - args_bytes_from(self.args_spec(), i),
            ({
                let below = self.user_stack_top_spec() - args_bytes_from(self.args_spec(), 0) - 16
                    * self.args_spec().len();
                r.array_base == below - below % 16
            }),
    {
        let n = self.args.len();
        let mut addrs: Vec<u64> = vec![0u64; n];
        let mut user_stack_ptr = self.user_stack_top;
        let mut k = n;
        proof {
            lemma_args_bytes_nonneg(self.args@, 0);
        }
        // copy args to the user stack, the last one first, so argument 0 is lowest
        while k > 0
            invariant
                n == self.args@.len(),
                k <= n,
                addrs@.len() == n,
                self.user_stack_top >= args_bytes_from(self.args@, 0) + 16 * n,
                user_stack_ptr == self.user_stack_top - args_bytes_from(self.args@, k as int),
                forall|i: int|
                    k <= i < n ==> #[trigger] addrs@[i] == self.user_stack_top - args_bytes_from(
                        self.args@,
                        i,
                    ),
            decreases k,
        {
            k = k - 1;
            let len = self.args[k].as_str().as_bytes().len();
            proof {
                assert(args_bytes_from(self.args@, k as int) == utf8_len(self.args@[k as int]@)
                    + args_bytes_from(self.args@, k + 1));
                lemma_args_bytes_nonneg(self.args@, k as int);
                lemma_args_bytes_monotone(self.args@, k as int);
            }
            user_stack_ptr = user_stack_ptr - len as u64;
            addrs.set(k, user_stack_ptr);
        }
        let below = user_stack_ptr - (n as u64) * 16;
        let array_base = below & !0xFu64;
        assert(array_base == below - below % 16) by (bit_vector)
            requires
                array_base == below & !0xFu64,
        ;
        UserStackPlan { string_addrs: addrs, array_base }
    }

    /// Put the user-mode frame at the top of the kernel stack: the argument count
    /// and array for the entry function, then the frame that `iretq` pops to enter
    /// the entry function in user mode with `array_base` as stack pointer.
    /// Returns the kernel stack pointer for the switch.
    pub fn prepare_user_mode(&mut self, array_base: u64, stack_top: usize) -> (r: usize)
        requires
            old(self).stack_spec().len() >= 7,
            stack_top >= STACK_ENTRY_SIZE * 7,
        ensures
            r == stack_top - STACK_ENTRY_SIZE * 7,
            final(self).stack_spec().len() == old(self).stack_spec().len(),
            final(self).stack_spec().subrange(
                final(self).stack_spec().len() - 7,
                final(self).stack_spec().len() as int,
            ) == user_mode_frame(
                old(self).entry_spec(),
                array_base,
                old(self).args_spec().len() as u64,
            ),
            forall|i: int|
                0 <= i < old(self).stack_spec().len() - 7 ==> #[trigger] final(self).stack_spec()[i]
                    == old(self).stack_spec()[i],
            final(self).stack_ptr_spec() == old(self).stack_ptr_spec(),
            final(self).id_spec() == old(self).id_spec(),
            final(self).pid_spec() == old(self).pid_spec(),
            final(self).is_kernel_spec() == old(self).is_kernel_spec(),
            final(self).name_spec() == old(self).name_spec(),
            final(self).user_stack_top_spec() == old(self).user_stack_top_spec(),
            final(self).pml4_spec() == old(self).pml4_spec(),
            final(self).entry_spec() == old(self).entry_spec(),
            final(self).args_spec() == old(self).args_spec(),
    {
        let len = self.kernel_stack.len();
        let argc = self.args.len() as u64;
        self.kernel_stack.set(len - 1, USER_DATA_SELECTOR);  // SS
        self.kernel_stack.set(len - 2, array_base);  // RSP
        self.kernel_stack.set(len - 3, USER_RFLAGS);  // RFLAGS
        self.kernel_stack.set(len - 4, USER_CODE_SELECTOR);  // CS
        self.kernel_stack.set(len - 5, self.entry);  // RIP
        self.kernel_stack.set(len - 6, array_base);  // argument array
        self.kernel_stack.set(len - 7, argc);  // argument count
        assert(self.kernel_stack@.subrange(len - 7, len as int) =~= user_mode_frame(
            self.entry,
            array_base,
            argc,
        ));
        stack_top - STACK_ENTRY_SIZE * 7
    }
}

proof fn lemma_args_bytes_monotone(args: Seq<String>, i: int)
    requires
        0 <= i,
    ensures
        args_bytes_from(args, i) <= args_bytes_from(args, 0),
    decreases i,
{
    if i > 0 {
        lemma_args_bytes_monotone(args, i - 1);
        if i - 1 < args.len() {
            assert(args_bytes_from(args, i - 1) == utf8_len(args[i - 1]@) + args_bytes_from(args, i));
        }
    }
}

} // verus!
