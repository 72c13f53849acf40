//! Verified core of a small x86_64 teaching kernel: physical-frame and heap
//! allocators, virtual memory areas and the process table, the round-robin
//! scheduler state, page-table entries, text-mode and framebuffer terminals,
//! and the logic of the shell and user programs.
pub mod consts;
pub mod devices;
pub mod kernel;
pub mod library;
pub mod apps;
pub mod user;
