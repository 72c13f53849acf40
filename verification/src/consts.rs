use vstd::prelude::*;

verus! {

/// Size of the kernel stack of every thread (512 KiB).
pub const STACK_SIZE: usize = 0x80000;

pub const STACK_ALIGNMENT: usize = 8;

/// Size of one entry on a stack.
pub const STACK_ENTRY_SIZE: usize = 8;

/// Start of the kernel heap.
pub const HEAP_START: usize = 0x500000;

/// Size of the kernel heap (100 MiB).
pub const HEAP_SIZE: usize = 104857600;

/// Size of a physical page frame (4 KiB).
pub const PAGE_FRAME_SIZE: usize = 0x1000;

/// Size of a virtual page (4 KiB).
pub const PAGE_SIZE: usize = 0x1000;

/// Virtual address at which the code of a user program is mapped.
pub const USER_CODE_VIRT_START: u64 = 0x100_0000_0000;

/// Virtual address just above the stack of the first thread of a user process.
pub const USER_STACK_VIRT_END: u64 = 0x400_0000_0000;

/// Virtual address at which the stack of the first thread of a user process begins.
pub const USER_STACK_VIRT_START: u64 = 0x3ff_fff8_0000;

} // verus!
