use hhu_tosr::devices::terminal::{DrawOp, BLACK};
use hhu_tosr::library::line_editor::{EditOutcome, KEY_BACKSPACE, KEY_ENTER};
use hhu_tosr::user::shell::{execute_command, KernelCommand, KernelProgram, Shell, PROMPT_COLOR, TEXT_COLOR};
use hhu_tosr::user::shell_commands::{
    find_rtl8139, network_info_text,
    cmd_echo, cmd_kill_message, cmd_time, decode_bar0, kill_request, pci_line, spinner_delay, spinner_step,
    thread_demo_count, thread_demo_position, uptime_text, KillRequest, RegisterBase,
};

fn words(ws: &[&str]) -> Vec<Vec<u8>> {
    ws.iter().map(|w| w.as_bytes().to_vec()).collect()
}

fn text(v: Vec<u8>) -> String {
    String::from_utf8(v).unwrap()
}

fn glyph(x: u32, y: u32, color: u32, c: char) -> DrawOp {
    DrawOp::Glyph { x, y, color, c }
}

#[test]
fn kernel_commands_parse() {
    match execute_command(&b"echo hello  world".to_vec()) {
        KernelCommand::Start { program, args } => {
            assert_eq!(program, KernelProgram::Echo);
            assert_eq!(args, words(&["hello", "world"]));
        }
        other => panic!("unexpected {:?}", other),
    }
    match execute_command(&b" pci_list ".to_vec()) {
        KernelCommand::Start { program, args } => {
            assert_eq!(program, KernelProgram::PciList);
            assert!(args.is_empty());
        }
        other => panic!("unexpected {:?}", other),
    }
    assert!(matches!(execute_command(&b"help".to_vec()), KernelCommand::Help));
    assert!(matches!(execute_command(&b"clear x".to_vec()), KernelCommand::Clear));
    assert!(matches!(execute_command(&b"history".to_vec()), KernelCommand::History));
    assert!(matches!(execute_command(&b"reboot".to_vec()), KernelCommand::Reboot));
    assert!(matches!(execute_command(&b"".to_vec()), KernelCommand::Empty));
    match execute_command(&b"foo bar".to_vec()) {
        KernelCommand::Unknown(name) => assert_eq!(name, b"foo".to_vec()),
        other => panic!("unexpected {:?}", other),
    }
}

#[test]
fn kernel_programs() {
    assert!(KernelProgram::Graphic.is_graphic());
    assert!(!KernelProgram::Echo.is_graphic());
    assert!(!KernelProgram::Spinner.waits());
    assert!(KernelProgram::Heap.waits());
    assert_eq!(KernelProgram::PciList.thread_name(), "pci-list");
    assert_eq!(KernelProgram::Threads.thread_name(), "thread-demo");
}

#[test]
fn shell_command_texts() {
    assert_eq!(text(cmd_echo(&words(&["hello", "world"]))), "hello world\n");
    assert_eq!(text(cmd_echo(&Vec::new())), "\n");
    assert_eq!(text(cmd_time(500)), "up time: 500 ms");
    assert_eq!(text(cmd_time(5_000)), "up time: 5 seconds");
    assert_eq!(text(cmd_time(61_000)), "up time: 1 minutes 1 seconds");
    assert_eq!(text(cmd_time(3_725_000)), "up time: 1 hours 2 minutes 5 seconds");
    assert_eq!(text(uptime_text("t=", 0)), "t=0 ms");
    assert_eq!(text(pci_line(0, 0x8086, 0x100e, 2)), "    0001: 8086:100e (Class: 02)");
    assert_eq!(text(pci_line(11, 0x10ec, 0x8139, 0x0c)), "    0012: 10ec:8139 (Class: 0c)");
}

#[test]
fn kill_requests() {
    assert!(matches!(kill_request(&Vec::new()), KillRequest::Usage));
    assert!(matches!(kill_request(&words(&["12", "x"])), KillRequest::Kill(12)));
    match kill_request(&words(&["a1"])) {
        KillRequest::Invalid(a) => assert_eq!(a, b"a1".to_vec()),
        other => panic!("unexpected {:?}", other),
    }
    assert_eq!(text(cmd_kill_message(&KillRequest::Kill(12))), "Process 12 killed");
    assert_eq!(text(cmd_kill_message(&KillRequest::Invalid(b"a1".to_vec()))), "Invalid PID: a1");
    assert_eq!(text(cmd_kill_message(&KillRequest::Usage)), "Usage: kill <pid>");
}

#[test]
fn device_registers_and_demos() {
    assert_eq!(decode_bar0(0xfebc_0000), RegisterBase::Mmio(0xfebc_0000));
    assert_eq!(decode_bar0(0xfebc_000c), RegisterBase::Mmio(0xfebc_0000));
    assert_eq!(decode_bar0(0xc001), RegisterBase::Io(0xc000));
    assert_eq!(spinner_delay(&Vec::new()), 250);
    assert_eq!(spinner_delay(&words(&["100"])), 100);
    assert_eq!(spinner_delay(&words(&["fast"])), 250);
    assert_eq!(spinner_step(1000, 700, 250), Some(0));
    assert_eq!(spinner_step(1250, 1000, 250), Some(1));
    assert_eq!(spinner_step(800, 700, 250), None);
    assert_eq!(thread_demo_count(&Vec::new()), Some(3));
    assert_eq!(thread_demo_count(&words(&["99"])), Some(99));
    assert_eq!(thread_demo_count(&words(&["0"])), None);
    assert_eq!(thread_demo_count(&words(&["100"])), None);
    assert_eq!(thread_demo_position(0), (10, 4));
    assert_eq!(thread_demo_position(34), (40, 6));
}

#[test]
fn shell_screen_typing() {
    // 10 columns, 3 lines of 8 by 16 pixels
    let mut sh = Shell::new(80, 48, 8, 16);
    assert_eq!(
        sh.print_prompt(),
        vec![glyph(0, 16, PROMPT_COLOR, '>'), glyph(8, 16, PROMPT_COLOR, ' ')]
    );
    let (o, ops) = sh.type_char(b'l');
    assert!(matches!(o, EditOutcome::Echo(b'l')));
    assert_eq!(ops, vec![glyph(16, 16, TEXT_COLOR, 'l')]);
    let (o, ops) = sh.type_char(KEY_BACKSPACE);
    assert!(matches!(o, EditOutcome::Erase));
    assert_eq!(ops, vec![glyph(24, 16, TEXT_COLOR, ' ')]);
    // the prompt is not erased
    let (o, ops) = sh.type_char(KEY_BACKSPACE);
    assert!(matches!(o, EditOutcome::Ignore));
    assert!(ops.is_empty());
    sh.type_char(b'p');
    sh.type_char(b's');
    let (o, ops) = sh.type_char(KEY_ENTER);
    match o {
        EditOutcome::Submit { command } => assert_eq!(command, Some(b"ps".to_vec())),
        other => panic!("unexpected {:?}", other),
    }
    assert!(ops.is_empty());
    assert_eq!(sh.editor().history(), &words(&["ps"]));
    // the cursor is at the start of the next line
    assert_eq!(sh.draw_cursor(), vec![glyph(0, 32, TEXT_COLOR, '_')]);
    assert_eq!(sh.erase_cursor(), vec![glyph(0, 32, TEXT_COLOR, ' ')]);
    assert_eq!(sh.clear_screen(), DrawOp::FillRect { x: 0, y: 0, w: 80, h: 48, color: BLACK });
}

#[test]
fn shell_screen_scrolls_and_history() {
    let mut sh = Shell::new(80, 48, 8, 16);
    sh.print_prompt();
    let ops = sh.write_str(b"\n\n");
    assert_eq!(
        ops,
        vec![
            DrawOp::ScrollUp { y: 0, height: 32, by: 16 },
            DrawOp::FillRect { x: 0, y: 32, w: 80, h: 16, color: BLACK },
        ]
    );
    sh.print_prompt();
    for b in b"ls" {
        sh.type_char(*b);
    }
    sh.type_char(KEY_ENTER);
    let ops = sh.print_prompt();
    assert_eq!(ops, vec![glyph(0, 32, PROMPT_COLOR, '>'), glyph(8, 32, PROMPT_COLOR, ' ')]);
    sh.type_char(b'x');
    // up: erase "x", show "ls"
    let ops = sh.navigate_history(true);
    assert_eq!(ops.len(), 3);
    assert_eq!(ops[1], glyph(16, 32, TEXT_COLOR, 'l'));
    assert_eq!(sh.editor().buffer(), &b"ls".to_vec());
    // down past the newest entry: erase "ls"
    let ops = sh.navigate_history(false);
    assert_eq!(ops.len(), 2);
    assert!(sh.editor().buffer().is_empty());
    assert_eq!(
        sh.print_at(5, 0, b"ok"),
        vec![glyph(40, 0, TEXT_COLOR, 'o'), glyph(48, 0, TEXT_COLOR, 'k')]
    );
    assert_eq!(sh.print_colored(0x123456, b"!"), vec![glyph(16, 32, 0x123456, '!')]);
    assert_eq!(sh.write_str(b"?"), vec![glyph(24, 32, TEXT_COLOR, '?')]);
}

#[test]
fn shell_writing_in_parts_draws_the_same() {
    let mut whole = Shell::new(80, 48, 8, 16);
    let mut parts = Shell::new(80, 48, 8, 16);
    let all = whole.write_str(b"first line\nsecond, longer line\n\nx");
    let mut pieces = parts.write_str(b"first line\nsecond, lo");
    pieces.extend(parts.write_str(b"nger line\n\nx"));
    assert_eq!(all, pieces);
    assert_eq!(whole.draw_cursor(), parts.draw_cursor());
}

#[test]
fn network_controller_search_and_text() {
    assert_eq!(find_rtl8139(&vec![(0x8086, 0x100e), (0x10ec, 0x8139), (0x10ec, 0x8139)]), Some(1));
    assert_eq!(find_rtl8139(&vec![(0x8086, 0x100e), (0x10ec, 0x8168)]), None);
    assert_eq!(find_rtl8139(&Vec::new()), None);
    let mac = [0x52, 0x54, 0x00, 0x12, 0x34, 0x0a];
    assert_eq!(
        text(network_info_text(false, RegisterBase::Io(0), mac)),
        "No Realtek RTL8139 network controller found.\n"
    );
    assert_eq!(
        text(network_info_text(true, RegisterBase::Io(0xc000), mac)),
        "Found Realtek RTL8139 network controller\nRTL8139 I/O base: 0xc000\nMAC: 52:54:00:12:34:0a\n"
    );
    assert_eq!(
        text(network_info_text(true, RegisterBase::Mmio(0xfebc_0000), mac)),
        "Found Realtek RTL8139 network controller\nRTL8139 MMIO base: 0xfebc0000\nMAC: 52:54:00:12:34:0a\n"
    );
}

#[test]
fn shell_enter_gives_the_line() {
    let mut sh = Shell::new(80, 48, 8, 16);
    sh.print_prompt();
    for b in b"  ps  " {
        sh.type_char(*b);
    }
    match sh.type_char(KEY_ENTER).0 {
        EditOutcome::Submit { command } => assert_eq!(command, Some(b"ps".to_vec())),
        other => panic!("unexpected {:?}", other),
    }
    assert!(sh.editor().buffer().is_empty());
    sh.navigate_history(true);
    assert_eq!(sh.editor().history(), &words(&["ps"]));
    assert_eq!(sh.editor().buffer(), &b"ps".to_vec());
}
