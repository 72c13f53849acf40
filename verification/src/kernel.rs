pub mod allocator;
pub mod paging;
pub mod processes;
pub mod threads;
pub mod syscalls;
pub mod boot;
pub mod syscall_dispatcher;
