use vstd::prelude::*;
use crate::apps::shell::{join, join_words};
use crate::library::text::{
    bytes_of, decimal, hex, pad_left, parse_unsigned, parse_usize, push_bytes, push_decimal, push_hex,
    push_padded, push_str, views, BLANK,
};

verus! {

/// The line feed.
pub const LINE_FEED: u8 = 0x0a;

/// Milliseconds per second.
pub const MS_PER_SECOND: usize = 1000;

/// Milliseconds per minute.
pub const MS_PER_MINUTE: usize = 60_000;

/// Milliseconds per hour.
pub const MS_PER_HOUR: usize = 3_600_000;

/// What `echo` prints: the arguments separated by blanks, then a line feed.
pub fn cmd_echo(args: &Vec<Vec<u8>>) -> (r: Vec<u8>)
    ensures
        r@ == join_words(views(args@)) + seq![LINE_FEED],
{
    let mut out = join(args, 0);
    out.push(LINE_FEED);
    assert(views(args@).subrange(0, args@.len() as int) == views(args@));
    out
}

/// The uptime `time` (in milliseconds) in the largest units that fit, after `prefix`.
pub open spec fn uptime_spec(prefix: Seq<u8>, time: nat) -> Seq<u8> {
    if time < 1000 {
        prefix + decimal(time) + bytes_of(" ms")
    } else if time < 60_000 {
        prefix + decimal(time / 1000) + bytes_of(" seconds")
    } else if time < 3_600_000 {
        prefix + decimal(time / 60_000) + bytes_of(" minutes ") + decimal((time % 60_000) / 1000)
            + bytes_of(" seconds")
    } else {
        prefix + decimal(time / 3_600_000) + bytes_of(" hours ") + decimal(
            (time % 3_600_000) / 60_000,
        ) + bytes_of(" minutes ") + decimal((time % 60_000) / 1000) + bytes_of(" seconds")
    }
}

/// The uptime `time` (in milliseconds) after `prefix`: in milliseconds below a
/// second, else in seconds, minutes and seconds, or hours, minutes and seconds.
pub fn uptime_text(prefix: &str, time: usize) -> (r: Vec<u8>)
    requires
        time <= u64::MAX,
    ensures
        r@ == uptime_spec(bytes_of(prefix), time as nat),
{
    let t = time as u64;
    let mut out: Vec<u8> = Vec::new();
    push_str(&mut out, prefix);
    if t < 1000 {
        push_decimal(&mut out, t);
        push_str(&mut out, " ms");
    } else if t < 60_000 {
        push_decimal(&mut out, t / 1000);
        push_str(&mut out, " seconds");
    } else if t < 3_600_000 {
        push_decimal(&mut out, t / 60_000);
        push_str(&mut out, " minutes ");
        push_decimal(&mut out, (t % 60_000) / 1000);
        push_str(&mut out, " seconds");
    } else {
        push_decimal(&mut out, t / 3_600_000);
        push_str(&mut out, " hours ");
        push_decimal(&mut out, (t % 3_600_000) / 60_000);
        push_str(&mut out, " minutes ");
        push_decimal(&mut out, (t % 60_000) / 1000);
        push_str(&mut out, " seconds");
    }
    assert(out@ == uptime_spec(bytes_of(prefix), time as nat));
    out
}

/// What `time` prints in the kernel shell.
pub fn cmd_time(time: usize) -> (r: Vec<u8>)
    requires
        time <= u64::MAX,
    ensures
        r@ == uptime_spec(bytes_of("up time: "), time as nat),
{
    uptime_text("up time: ", time)
}

/// What `kill` asks for.
#[derive(Debug)]
pub enum KillRequest {
    /// No argument was given.
    Usage,
    /// The first argument is not a number.
    Invalid(Vec<u8>),
    /// Kill the given id.
    Kill(usize),
}

/// The request that the arguments `args` of `kill` make.
pub fn kill_request(args: &Vec<Vec<u8>>) -> (r: KillRequest)
    ensures
        args@.len() == 0 ==> r is Usage,
        args@.len() > 0 ==> match parse_unsigned(args@[0]@, usize::MAX as nat) {
            Some(v) => r == KillRequest::Kill(v as usize),
            None => r matches KillRequest::Invalid(a) && a@ == args@[0]@,
        },
{
    if args.len() < 1 {
        return KillRequest::Usage;
    }
    match parse_usize(args[0].as_slice()) {
        Some(pid) => KillRequest::Kill(pid),
        None => KillRequest::Invalid(args[0].clone()),
    }
}

/// The message of the kernel shell's `kill` for `request`.
pub fn cmd_kill_message(request: &KillRequest) -> (r: Vec<u8>)
    requires
        request matches KillRequest::Kill(p) ==> p <= u64::MAX,
    ensures
        r@ == match request {
            KillRequest::Usage => bytes_of("Usage: kill <pid>"),
            KillRequest::Invalid(a) => bytes_of("Invalid PID: ") + a@,
            KillRequest::Kill(p) => bytes_of("Process ") + decimal(*p as nat) + bytes_of(" killed"),
        },
{
    let mut out: Vec<u8> = Vec::new();
    match request {
        KillRequest::Usage => {
            push_str(&mut out, "Usage: kill <pid>");
        },
        KillRequest::Invalid(a) => {
            push_str(&mut out, "Invalid PID: ");
            push_bytes(&mut out, a.as_slice());
        },
        KillRequest::Kill(p) => {
            push_str(&mut out, "Process ");
            push_decimal(&mut out, *p as u64);
            push_str(&mut out, " killed");
        },
    }
    out
}

/// One line of the PCI device list: the number from 1 in four decimal digits,
/// vendor and device id in four hexadecimal digits and the class in two.
pub open spec fn pci_line_spec(index: nat, vendor: u16, device: u16, class: u8) -> Seq<u8> {
    bytes_of("    ") + pad_left(decimal(index + 1), 4, 0x30) + bytes_of(": ") + pad_left(
        hex(vendor as nat),
        4,
        0x30,
    ) + bytes_of(":") + pad_left(hex(device as nat), 4, 0x30) + bytes_of(" (Class: ") + pad_left(
        hex(class as nat),
        2,
        0x30,
    ) + bytes_of(")")
}

/// The line of the PCI device list for device `index` (from 0).
pub fn pci_line(index: usize, vendor: u16, device: u16, class: u8) -> (r: Vec<u8>)
    requires
        index < u64::MAX,
    ensures
        r@ == pci_line_spec(index as nat, vendor, device, class),
{
    let mut out: Vec<u8> = Vec::new();
    push_str(&mut out, "    ");
    let mut n: Vec<u8> = Vec::new();
    push_decimal(&mut n, index as u64 + 1);
    push_padded(&mut out, &n, 4, 0x30);
    push_str(&mut out, ": ");
    let mut v: Vec<u8> = Vec::new();
    push_hex(&mut v, vendor as u64);
    push_padded(&mut out, &v, 4, 0x30);
    push_str(&mut out, ":");
    let mut d: Vec<u8> = Vec::new();
    push_hex(&mut d, device as u64);
    push_padded(&mut out, &d, 4, 0x30);
    push_str(&mut out, " (Class: ");
    let mut c: Vec<u8> = Vec::new();
    push_hex(&mut c, class as u64);
    push_padded(&mut out, &c, 2, 0x30);
    push_str(&mut out, ")");
    proof {
        assert(n@ == Seq::<u8>::empty() + decimal((index + 1) as nat));
        assert(v@ == Seq::<u8>::empty() + hex(vendor as nat));
        assert(d@ == Seq::<u8>::empty() + hex(device as nat));
        assert(c@ == Seq::<u8>::empty() + hex(class as nat));
    }
    out
}

/// Where the registers of a PCI device are, as its first base address register
/// tells: memory-mapped from an address, or at an I/O port.
#[derive(PartialEq, Eq, Structural, Clone, Copy, Debug)]
pub enum RegisterBase {
    Mmio(u32),
    Io(u16),
}

/// Decode base address register 0: bit 0 clear means memory-mapped registers at the
/// address in the upper 28 bits; set means I/O ports from the port in bits 2..16.
pub fn decode_bar0(bar0: u32) -> (r: RegisterBase)
    ensures
        bar0 & 1 == 0 ==> r == RegisterBase::Mmio(bar0 & 0xffff_fff0),
        bar0 & 1 != 0 ==> r == RegisterBase::Io((bar0 & 0xfffc) as u16),
{
    if bar0 & 0x1 == 0 {
        RegisterBase::Mmio(bar0 & 0xffff_fff0)
    } else {
        assert(bar0 & 0xfffc <= 0xffff) by (bit_vector);
        RegisterBase::Io((bar0 & 0xfffc) as u16)
    }
}

/// The delay between spinner steps: the first argument, else 250 milliseconds.
pub fn spinner_delay(args: &Vec<Vec<u8>>) -> (r: usize)
    ensures
        args@.len() > 0 && parse_unsigned(args@[0]@, usize::MAX as nat) is Some ==> r
            == parse_unsigned(args@[0]@, usize::MAX as nat).unwrap(),
        !(args@.len() > 0 && parse_unsigned(args@[0]@, usize::MAX as nat) is Some) ==> r == 250,
{
    if args.len() > 0 {
        match parse_usize(args[0].as_slice()) {
            Some(v) => v,
            None => 250,
        }
    } else {
        250
    }
}

/// The spinner shows a new glyph at `current_time` when `delay` milliseconds have
/// passed since `last_time`; returns the glyph's index among the four.
pub fn spinner_step(current_time: usize, last_time: usize, delay: usize) -> (r: Option<usize>)
    requires
        last_time <= current_time,
        delay > 0,
    ensures
        current_time - last_time >= delay ==> r == Some(((current_time / delay) % 4) as usize),
        current_time - last_time < delay ==> r is None,
{
    if current_time - last_time >= delay {
        Some((current_time / delay) % 4)
    } else {
        None
    }
}

/// The number of threads that the thread demo starts: the first argument, else 3;
/// only 1 to 99 are accepted.
pub fn thread_demo_count(args: &Vec<Vec<u8>>) -> (r: Option<usize>)
    ensures
        ({
            let n = if args@.len() > 0 && parse_unsigned(args@[0]@, usize::MAX as nat) is Some {
                parse_unsigned(args@[0]@, usize::MAX as nat).unwrap()
            } else {
                3
            };
            if 1 <= n <= 99 {
                r == Some(n as usize)
            } else {
                r is None
            }
        }),
{
    let n = if args.len() > 0 {
        match parse_usize(args[0].as_slice()) {
            Some(v) => v,
            None => 3,
        }
    } else {
        3
    };
    if n < 1 || n > 99 {
        None
    } else {
        Some(n)
    }
}

/// Where thread `num` of the thread demo writes its counter: 33 threads per
/// column of 30 characters, two lines apart.
pub fn thread_demo_position(num: u32) -> (r: (u32, u32))
    ensures
        r.0 == 10 + (num / 33) * 30,
        r.1 == 4 + (num % 33) * 2,
{
    let column = num / 33;
    let row = num % 33;
    (10 + column * 30, 4 + row * 2)
}

/// Vendor id of Realtek.
pub const REALTEK_VENDOR: u16 = 0x10ec;

/// Device id of the RTL8139 network controller.
pub const RTL8139_DEVICE: u16 = 0x8139;

/// The index of the first device, given as (vendor id, device id), that is a
/// Realtek RTL8139, or `None` if there is none.
pub fn find_rtl8139(devices: &Vec<(u16, u16)>) -> (r: Option<usize>)
    ensures
        match r {
            Some(i) => i < devices@.len() && devices@[i as int] == (REALTEK_VENDOR, RTL8139_DEVICE)
                && forall|j: int| 0 <= j < i ==> devices@[j] != (REALTEK_VENDOR, RTL8139_DEVICE),
            None => forall|j: int| 0 <= j < devices@.len() ==> devices@[j] != (REALTEK_VENDOR, RTL8139_DEVICE),
        },
{
    let mut i: usize = 0;
    while i < devices.len()
        invariant
            i <= devices@.len(),
            forall|j: int| 0 <= j < i ==> devices@[j] != (REALTEK_VENDOR, RTL8139_DEVICE),
        decreases devices@.len() - i,
    {
        if devices[i].0 == REALTEK_VENDOR && devices[i].1 == RTL8139_DEVICE {
            return Some(i);
        }
        i = i + 1;
    }
    None
}

/// A byte in two lowercase hexadecimal digits.
pub open spec fn hex2(b: u8) -> Seq<u8> {
    pad_left(hex(b as nat), 2, 0x30)
}

/// The first `n` bytes of a MAC address as two-digit hexadecimal numbers
/// separated by colons.
pub open spec fn mac_prefix(mac: Seq<u8>, n: nat) -> Seq<u8>
    decreases n,
{
    if n == 0 {
        Seq::empty()
    } else if n == 1 {
        hex2(mac[0])
    } else {
        mac_prefix(mac, (n - 1) as nat) + seq![0x3au8] + hex2(mac[n - 1])
    }
}

/// A MAC address as six two-digit hexadecimal bytes separated by colons.
pub open spec fn mac_spec(mac: Seq<u8>) -> Seq<u8> {
    mac_prefix(mac, 6)
}

/// What the network information system call prints: that no RTL8139 was found,
/// or that it was, where its registers are, and its MAC address.
pub open spec fn network_info_spec(found: bool, base: RegisterBase, mac: Seq<u8>) -> Seq<u8> {
    if !found {
        bytes_of("No Realtek RTL8139 network controller found.\n")
    } else {
        bytes_of("Found Realtek RTL8139 network controller\n") + match base {
            RegisterBase::Mmio(a) => bytes_of("RTL8139 MMIO base: 0x") + hex(a as nat),
            RegisterBase::Io(p) => bytes_of("RTL8139 I/O base: 0x") + hex(p as nat),
        } + seq![LINE_FEED] + bytes_of("MAC: ") + mac_spec(mac) + seq![LINE_FEED]
    }
}

fn push_hex2(out: &mut Vec<u8>, b: u8)
    ensures
        final(out)@ == old(out)@ + hex2(b),
{
    let mut h: Vec<u8> = Vec::new();
    push_hex(&mut h, b as u64);
    assert(h@ == hex(b as nat));
    push_padded(out, &h, 2, 0x30);
}

fn push_mac(out: &mut Vec<u8>, mac: &[u8; 6])
    ensures
        final(out)@ == old(out)@ + mac_spec(mac@),
{
    let mut k: usize = 0;
    while k < 6
        invariant
            k <= 6,
            mac@.len() == 6,
            out@ == old(out)@ + mac_prefix(mac@, k as nat),
        decreases 6 - k,
    {
        if k > 0 {
            out.push(0x3a);
        }
        push_hex2(out, mac[k]);
        k = k + 1;
    }
}

/// The text of the network information for an RTL8139 that was `found`, whose
/// registers are at `base` and whose MAC address is `mac`.
pub fn network_info_text(found: bool, base: RegisterBase, mac: [u8; 6]) -> (r: Vec<u8>)
    ensures
        r@ == network_info_spec(found, base, mac@),
{
    let mut out: Vec<u8> = Vec::new();
    if !found {
        push_str(&mut out, "No Realtek RTL8139 network controller found.\n");
        return out;
    }
    push_str(&mut out, "Found Realtek RTL8139 network controller\n");
    let ghost head = out@;
    match base {
        RegisterBase::Mmio(a) => {
            push_str(&mut out, "RTL8139 MMIO base: 0x");
            push_hex(&mut out, a as u64);
        },
        RegisterBase::Io(p) => {
            push_str(&mut out, "RTL8139 I/O base: 0x");
            push_hex(&mut out, p as u64);
        },
    }
    let ghost base_line = out@;
    out.push(LINE_FEED);
    push_str(&mut out, "MAC: ");
    push_mac(&mut out, &mac);
    out.push(LINE_FEED);
    out
}

} // verus!
