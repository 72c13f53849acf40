use vstd::prelude::*;
use crate::library::text::{
    bytes_of, decimal, pad_left, parse_u32, parse_unsigned, push_bytes, push_decimal, push_padded,
    push_str, views, BLANK,
};
use crate::user::shell_commands::{KillRequest, LINE_FEED};

verus! {

/// What the `echo` program prints: each argument followed by a blank, then a line
/// feed; nothing without arguments.
pub open spec fn echo_spec(args: Seq<Seq<u8>>) -> Seq<u8>
    decreases args.len(),
{
    if args.len() == 0 {
        Seq::empty()
    } else {
        echo_words(args) + seq![LINE_FEED]
    }
}

/// Each of `args` followed by a blank.
pub open spec fn echo_words(args: Seq<Seq<u8>>) -> Seq<u8>
    decreases args.len(),
{
    if args.len() == 0 {
        Seq::empty()
    } else {
        echo_words(args.drop_last()) + args.last() + seq![BLANK]
    }
}

/// What the `echo` program prints for `args`.
pub fn echo_output(args: &Vec<Vec<u8>>) -> (r: Vec<u8>)
    ensures
        r@ == echo_spec(views(args@)),
{
    let mut out: Vec<u8> = Vec::new();
    if args.len() == 0 {
        return out;
    }
    let mut i: usize = 0;
    while i < args.len()
        invariant
            i <= args@.len(),
            out@ == echo_words(views(args@).subrange(0, i as int)),
        decreases args@.len() - i,
    {
        push_bytes(&mut out, args[i].as_slice());
        out.push(BLANK);
        proof {
            let sub = views(args@).subrange(0, i + 1);
            assert(sub.drop_last() == views(args@).subrange(0, i as int));
            assert(sub.last() == args@[i as int]@);
        }
        i = i + 1;
    }
    assert(views(args@).subrange(0, args@.len() as int) == views(args@));
    out.push(LINE_FEED);
    out
}

/// The message of the `kill` program for `request`.
pub fn kill_message(request: &KillRequest) -> (r: Vec<u8>)
    requires
        request matches KillRequest::Kill(p) ==> p <= u64::MAX,
    ensures
        r@ == match request {
            KillRequest::Usage => bytes_of("Usage: kill <tid>"),
            KillRequest::Invalid(a) => bytes_of("kill: invalid TID '") + a@ + bytes_of("'"),
            KillRequest::Kill(p) => bytes_of("Thread ") + decimal(*p as nat) + bytes_of(" killed"),
        },
{
    let mut out: Vec<u8> = Vec::new();
    match request {
        KillRequest::Usage => {
            push_str(&mut out, "Usage: kill <tid>");
        },
        KillRequest::Invalid(a) => {
            push_str(&mut out, "kill: invalid TID '");
            push_bytes(&mut out, a.as_slice());
            push_str(&mut out, "'");
        },
        KillRequest::Kill(p) => {
            push_str(&mut out, "Thread ");
            push_decimal(&mut out, *p as u64);
            push_str(&mut out, " killed");
        },
    }
    out
}

/// Most spinner threads the `threads` program starts.
pub const MAX_SPINNER_THREADS: u32 = 40;

/// How many spinner threads `threads` starts: the first argument, else 1, at most 40.
pub fn threads_count(args: &Vec<Vec<u8>>) -> (r: u32)
    ensures
        ({
            let n = if args@.len() > 0 && parse_unsigned(args@[0]@, u32::MAX as nat) is Some {
                parse_unsigned(args@[0]@, u32::MAX as nat).unwrap()
            } else {
                1
            };
            r == if n < 40 { n } else { 40 }
        }),
{
    let n = if args.len() > 0 {
        match parse_u32(args[0].as_slice()) {
            Some(v) => v,
            None => 1,
        }
    } else {
        1
    };
    if n < MAX_SPINNER_THREADS {
        n
    } else {
        MAX_SPINNER_THREADS
    }
}

/// The name of spinner thread `i`.
pub fn spinner_thread_name(i: u32) -> (r: Vec<u8>)
    ensures
        r@ == bytes_of("threads-") + decimal(i as nat),
{
    let mut out: Vec<u8> = Vec::new();
    push_str(&mut out, "threads-");
    push_decimal(&mut out, i as u64);
    out
}

/// The index a spinner thread was started with: its first argument, else 0.
pub fn spinner_thread_index(args: &Vec<Vec<u8>>) -> (r: u32)
    ensures
        args@.len() > 0 && parse_unsigned(args@[0]@, u32::MAX as nat) is Some ==> r
            == parse_unsigned(args@[0]@, u32::MAX as nat).unwrap(),
        !(args@.len() > 0 && parse_unsigned(args@[0]@, u32::MAX as nat) is Some) ==> r == 0,
{
    if args.len() > 0 {
        match parse_u32(args[0].as_slice()) {
            Some(v) => v,
            None => 0,
        }
    } else {
        0
    }
}

/// The line of spinner thread `idx` with glyph `glyph`: the index right-aligned
/// in two columns.
pub fn spinner_thread_line(idx: u32, glyph: u8) -> (r: Vec<u8>)
    ensures
        r@ == bytes_of("Thread ") + pad_left(decimal(idx as nat), 2, BLANK) + bytes_of(": ") + seq![glyph]
            + bytes_of("  "),
{
    let mut out: Vec<u8> = Vec::new();
    push_str(&mut out, "Thread ");
    let mut n: Vec<u8> = Vec::new();
    push_decimal(&mut n, idx as u64);
    assert(n@ == Seq::<u8>::empty() + decimal(idx as nat));
    push_padded(&mut out, &n, 2, BLANK);
    push_str(&mut out, ": ");
    out.push(glyph);
    push_str(&mut out, "  ");
    out
}

/// The status line of the shell's spinner: glyph, processes, threads and used
/// memory of all memory in MiB (`free_bytes` free of `max_bytes`).
pub fn spinner_status_line(glyph: u8, processes: usize, threads: usize, free_bytes: usize, max_bytes: usize) -> (r: Vec<u8>)
    requires
        free_bytes / 1024 / 1024 <= max_bytes / 1024 / 1024,
        processes <= u64::MAX,
        threads <= u64::MAX,
        max_bytes <= u64::MAX,
    ensures
        r@ == seq![glyph] + bytes_of(" P:") + decimal(processes as nat) + bytes_of(" T:") + decimal(
            threads as nat,
        ) + bytes_of("    Memmory used: ") + decimal((max_bytes / 1024 / 1024 - free_bytes / 1024 / 1024) as nat)
            + bytes_of("/") + decimal((max_bytes / 1024 / 1024) as nat) + bytes_of(" MB"),
{
    let max_mem = max_bytes / 1024 / 1024;
    let used_mem = max_mem - free_bytes / 1024 / 1024;
    let mut out: Vec<u8> = Vec::new();
    out.push(glyph);
    push_str(&mut out, " P:");
    push_decimal(&mut out, processes as u64);
    push_str(&mut out, " T:");
    push_decimal(&mut out, threads as u64);
    push_str(&mut out, "    Memmory used: ");
    push_decimal(&mut out, used_mem as u64);
    push_str(&mut out, "/");
    push_decimal(&mut out, max_mem as u64);
    push_str(&mut out, " MB");
    assert(out@ == seq![glyph] + bytes_of(" P:") + decimal(processes as nat) + bytes_of(" T:") + decimal(
        threads as nat,
    ) + bytes_of("    Memmory used: ") + decimal(used_mem as nat) + bytes_of("/") + decimal(max_mem as nat)
        + bytes_of(" MB"));
    out
}

/// Size of the cursor square of the mouse programs.
pub const MOUSE_CURSOR: i32 = 10;

/// `v` clamped to `lo..=hi`.
pub open spec fn clamp_spec(v: int, lo: int, hi: int) -> int {
    if v < lo {
        lo
    } else if v > hi {
        hi
    } else {
        v
    }
}

/// Move the mouse program's cursor square by (`dx`, `dy`), keeping it on a screen of
/// `width` by `height` pixels.
pub fn mouse_move(mx: i32, my: i32, dx: i16, dy: i16, width: u32, height: u32) -> (r: (i32, i32))
    requires
        MOUSE_CURSOR <= width,
        MOUSE_CURSOR <= height,
        width + 0x8000 <= i32::MAX,
        height + 0x8000 <= i32::MAX,
        0 <= mx <= width,
        0 <= my <= height,
    ensures
        r.0 == clamp_spec(mx + dx, 0, width - MOUSE_CURSOR),
        r.1 == clamp_spec(my + dy, 0, height - MOUSE_CURSOR),
{
    let hx = width as i32 - MOUSE_CURSOR;
    let hy = height as i32 - MOUSE_CURSOR;
    let nx = mx + dx as i32;
    let ny = my + dy as i32;
    let x = if nx < 0 {
        0
    } else if nx > hx {
        hx
    } else {
        nx
    };
    let y = if ny < 0 {
        0
    } else if ny > hy {
        hy
    } else {
        ny
    };
    (x, y)
}

/// The part of the mouse cursor square at (`mx`, `my`) that lies on a screen of
/// `width` by `height` pixels, as (x, y, w, h).
pub fn cursor_square(mx: u32, my: u32, width: u32, height: u32) -> (r: (u32, u32, u32, u32))
    ensures
        r == (mx, my, (if mx >= width { 0 } else if width - mx < 10 { width - mx } else { 10 }) as u32, (
        if my >= height { 0 } else if height - my < 10 { height - my } else { 10 }) as u32),
{
    let w = if mx >= width {
        0
    } else if width - mx < 10 {
        width - mx
    } else {
        10
    };
    let h = if my >= height {
        0
    } else if height - my < 10 {
        height - my
    } else {
        10
    };
    (mx, my, w, h)
}

} // verus!
