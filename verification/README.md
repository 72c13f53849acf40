# hhu_tosr

The logic of a small teaching operating system for x86-64 (hhuTOS), written
in Verus and proved against its contracts: memory management, processes and
threads, the scheduler, system calls, the text devices and the shells and
user programs that run on top.

## Layout

- `src/` — the verified library.
  - `kernel/allocator` — the kernel heap: a first-fit free list with
    coalescing.
  - `kernel/paging` — the physical frame allocator (a sorted free list of
    frame runs) and the four-level page tables, with their mapping and
    translation.
  - `kernel/processes` — processes and their virtual memory areas.
  - `kernel/threads` — threads, their start frames, and the round-robin
    scheduler.
  - `kernel/syscalls.rs`, `kernel/syscall_dispatcher.rs` — system calls that
    decide something, and the numbering of the system call table.
  - `kernel/boot.rs` — setting up the kernel's memory at boot.
  - `devices` — the CGA text screen, the framebuffer terminal (which returns
    drawing commands) and the programmable interval timer.
  - `library` — text handling (numbers, parsing, trimming, sorting), the line
    editor with its history, and small helpers.
  - `user` — the kernel shell and its commands.
  - `apps` — the user shell, the app launcher, and the small user programs.
- `tests/` — tests of the library on concrete values.
- `app/` — a program that boots the kernel's state on the host and runs the
  kernel shell on standard input and output.

Hardware access (ports, control registers, the framebuffer's memory, context
switches in assembly, interrupt handlers) stays outside the library: its
functions return what is to be written or drawn, and take what was read.
