use vstd::prelude::*;

verus! {
/// The system calls, in the order of the dispatcher's table: a call's number is
/// its index there.
#[derive(PartialEq, Eq, Structural, Clone, Copy, Debug)]
pub enum SyscallFunction {
    HelloWorld,
    ThreadYield,
    ThreadExit,
    ThreadGetId,
    ProcessGetId,
    WaitPid,
    DumpVmas,
    MapHeap,
    GetSystemTime,
    Print,
    Println,
    KPrint,
    KPrintln,
    GetChar,
    GetKey,
    TermPrint,
    TermPrintColored,
    TermPrintAt,
    ClearScreen,
    DrawCursor,
    EraseCursor,
    EraseChar,
    Reboot,
    SpawnProcess,
    SpawnThread,
    ThreadCount,
    ProcessCount,
    Ps,
    FreeMemoryBytes,
    MaxMemoryBytes,
}

/// Number of system calls.
pub const NUM_SYSCALLS: u64 = 30;

/// The number of system call `f`.
pub open spec fn syscall_number(f: SyscallFunction) -> u64 {
    match f {
        SyscallFunction::HelloWorld => 0,
        SyscallFunction::ThreadYield => 1,
        SyscallFunction::ThreadExit => 2,
        SyscallFunction::ThreadGetId => 3,
        SyscallFunction::ProcessGetId => 4,
        SyscallFunction::WaitPid => 5,
        SyscallFunction::DumpVmas => 6,
        SyscallFunction::MapHeap => 7,
        SyscallFunction::GetSystemTime => 8,
        SyscallFunction::Print => 9,
        SyscallFunction::Println => 10,
        SyscallFunction::KPrint => 11,
        SyscallFunction::KPrintln => 12,
        SyscallFunction::GetChar => 13,
        SyscallFunction::GetKey => 14,
        SyscallFunction::TermPrint => 15,
        SyscallFunction::TermPrintColored => 16,
        SyscallFunction::TermPrintAt => 17,
        SyscallFunction::ClearScreen => 18,
        SyscallFunction::DrawCursor => 19,
        SyscallFunction::EraseCursor => 20,
        SyscallFunction::EraseChar => 21,
        SyscallFunction::Reboot => 22,
        SyscallFunction::SpawnProcess => 23,
        SyscallFunction::SpawnThread => 24,
        SyscallFunction::ThreadCount => 25,
        SyscallFunction::ProcessCount => 26,
        SyscallFunction::Ps => 27,
        SyscallFunction::FreeMemoryBytes => 28,
        SyscallFunction::MaxMemoryBytes => 29,
    }
}

/// The system call that number `number` selects: the entry of the table, or
/// none for a number past its end (the dispatcher aborts then).
pub fn syscall_for(number: u64) -> (r: Option<SyscallFunction>)
    ensures
        number < NUM_SYSCALLS <==> r is Some,
        r matches Some(f) ==> syscall_number(f) == number,
{
    match number {
        0 => Some(SyscallFunction::HelloWorld),
        1 => Some(SyscallFunction::ThreadYield),
        2 => Some(SyscallFunction::ThreadExit),
        3 => Some(SyscallFunction::ThreadGetId),
        4 => Some(SyscallFunction::ProcessGetId),
        5 => Some(SyscallFunction::WaitPid),
        6 => Some(SyscallFunction::DumpVmas),
        7 => Some(SyscallFunction::MapHeap),
        8 => Some(SyscallFunction::GetSystemTime),
        9 => Some(SyscallFunction::Print),
        10 => Some(SyscallFunction::Println),
        11 => Some(SyscallFunction::KPrint),
        12 => Some(SyscallFunction::KPrintln),
        13 => Some(SyscallFunction::GetChar),
        14 => Some(SyscallFunction::GetKey),
        15 => Some(SyscallFunction::TermPrint),
        16 => Some(SyscallFunction::TermPrintColored),
        17 => Some(SyscallFunction::TermPrintAt),
        18 => Some(SyscallFunction::ClearScreen),
        19 => Some(SyscallFunction::DrawCursor),
        20 => Some(SyscallFunction::EraseCursor),
        21 => Some(SyscallFunction::EraseChar),
        22 => Some(SyscallFunction::Reboot),
        23 => Some(SyscallFunction::SpawnProcess),
        24 => Some(SyscallFunction::SpawnThread),
        25 => Some(SyscallFunction::ThreadCount),
        26 => Some(SyscallFunction::ProcessCount),
        27 => Some(SyscallFunction::Ps),
        28 => Some(SyscallFunction::FreeMemoryBytes),
        29 => Some(SyscallFunction::MaxMemoryBytes),
        _ => None,
    }
}

/// Each system call is selected by its own number, and only by it.
pub proof fn law_syscall_number_selects(f: SyscallFunction, g: SyscallFunction)
    ensures
        syscall_number(f) < NUM_SYSCALLS,
        syscall_number(f) == syscall_number(g) ==> f == g,
{
}

} // verus!
