use hhu_tosr::devices::cga::{Color, CGA, CGA_COLUMNS, CGA_STD_ATTR, NEWLINE, NON_PRINTABLE, SPACE};
use hhu_tosr::devices::pit::{spinner_glyph, wait_finished, Timer, MODE3_COUNTER0, PORT_CTRL, PORT_DATA0};
use hhu_tosr::devices::terminal::{DrawOp, Terminal, BLACK, WHITE};
use hhu_tosr::user::keyboard_demo::{keyboard_demo_key, SCAN_BACKSPACE, SCAN_ENTER};

fn cell(cga: &CGA, x: usize, y: usize) -> (u8, u8) {
    let pos = (y * CGA_COLUMNS + x) * 2;
    (cga.video_memory()[pos], cga.video_memory()[pos + 1])
}

#[test]
fn cga_prints_and_moves_cursor() {
    let mut cga = CGA::new();
    assert_eq!(cga.getpos(), (0, 0));
    cga.write_str("hi");
    assert_eq!(cell(&cga, 0, 0), (b'h', CGA_STD_ATTR));
    assert_eq!(cell(&cga, 1, 0), (b'i', CGA_STD_ATTR));
    assert_eq!(cga.getpos(), (2, 0));
    cga.print_byte(NEWLINE);
    assert_eq!(cga.getpos(), (0, 1));
    assert_eq!(cga.cursor_register(), 80);
    // a byte outside printable ASCII shows as a block
    cga.write_str("\u{7}");
    assert_eq!(cell(&cga, 0, 1).0, NON_PRINTABLE);
    // the end of a line wraps
    cga.setpos(79, 2);
    cga.print_byte(b'z');
    assert_eq!(cell(&cga, 79, 2).0, b'z');
    assert_eq!(cga.getpos(), (0, 3));
}

#[test]
fn cga_delete_and_clear() {
    let mut cga = CGA::new();
    cga.write_str("ab");
    cga.del();
    assert_eq!(cga.getpos(), (1, 0));
    assert_eq!(cell(&cga, 1, 0), (SPACE, CGA_STD_ATTR));
    assert_eq!(cell(&cga, 0, 0).0, b'a');
    cga.del();
    cga.del();
    // at the start of a line nothing happens
    assert_eq!(cga.getpos(), (0, 0));
    cga.show(5, 5, b'q', 0x1f);
    assert_eq!(cell(&cga, 5, 5), (b'q', 0x1f));
    cga.clear();
    assert_eq!(cga.getpos(), (0, 0));
    assert_eq!(cell(&cga, 5, 5), (SPACE, CGA_STD_ATTR));
    assert_eq!(cell(&cga, 79, 24), (SPACE, CGA_STD_ATTR));
}

#[test]
fn cga_scrolls_at_bottom() {
    let mut cga = CGA::new();
    cga.clear();
    cga.setpos(0, 24);
    cga.write_str("z");
    cga.print_byte(NEWLINE);
    assert_eq!(cga.getpos(), (0, 24));
    assert_eq!(cell(&cga, 0, 23).0, b'z');
    assert_eq!(cell(&cga, 0, 24), (SPACE, CGA_STD_ATTR));
}

#[test]
fn cga_attribute_byte() {
    let cga = CGA::new();
    assert_eq!(cga.attribute(Color::Black, Color::Green, false), 0x02);
    assert_eq!(cga.attribute(Color::Blue, Color::White, true), 0x9f);
    assert_eq!(Color::Yellow.value(), 14);
}

#[test]
fn cga_setpos_getpos_roundtrip() {
    let mut cga = CGA::new();
    for (x, y) in [(0usize, 0usize), (79, 0), (3, 7), (79, 24)] {
        cga.setpos(x, y);
        assert_eq!(cga.getpos(), (x, y));
    }
}

#[test]
fn keyboard_demo_keys() {
    let mut cga = CGA::new();
    keyboard_demo_key(&mut cga, 30, b'a');
    keyboard_demo_key(&mut cga, 48, b'b');
    assert_eq!(cga.getpos(), (2, 0));
    keyboard_demo_key(&mut cga, SCAN_BACKSPACE, 8);
    assert_eq!(cga.getpos(), (1, 0));
    keyboard_demo_key(&mut cga, SCAN_ENTER, 13);
    assert_eq!(cga.getpos(), (0, 1));
}

#[test]
fn timer_interval_writes() {
    let mut t = Timer::new();
    assert_eq!(t.set_interrupt_interval(1), vec![(PORT_CTRL, MODE3_COUNTER0), (PORT_DATA0, 0xa9), (PORT_DATA0, 0x04)]);
    assert_eq!(t.set_interrupt_interval(10), vec![(PORT_CTRL, 0x36), (PORT_DATA0, 119), (PORT_DATA0, 0)]);
    assert_eq!(t.control_port, 0x43);
    assert_eq!(t.data_port0, 0x40);
}

#[test]
fn spinner_and_waiting() {
    assert_eq!(spinner_glyph(0, 250), Some(b'|'));
    assert_eq!(spinner_glyph(250, 250), Some(b'/'));
    assert_eq!(spinner_glyph(500, 250), Some(b'-'));
    assert_eq!(spinner_glyph(750, 250), Some(b'\\'));
    assert_eq!(spinner_glyph(1000, 250), Some(b'|'));
    assert_eq!(spinner_glyph(251, 250), None);
    assert!(wait_finished(100, 200, 100));
    assert!(!wait_finished(100, 199, 100));
}

fn glyph(x: u32, y: u32, c: char) -> DrawOp {
    DrawOp::Glyph { x, y, color: WHITE, c }
}

#[test]
fn terminal_prints_wraps_and_scrolls() {
    // 10 columns, 3 lines of 8 by 16 pixels
    let mut t = Terminal::new(80, 48, 8, 16);
    assert_eq!(t.draw_cursor(), glyph(0, 0, '_'));
    assert_eq!(t.print_string("ab"), vec![glyph(0, 0, 'a'), glyph(8, 0, 'b')]);
    assert_eq!(t.draw_cursor(), glyph(16, 0, '_'));
    assert_eq!(t.erase_cursor(), glyph(16, 0, ' '));
    assert!(t.print_string("\n\n").is_empty());
    assert_eq!(
        t.print_string("\n"),
        vec![
            DrawOp::ScrollUp { y: 0, height: 32, by: 16 },
            DrawOp::FillRect { x: 0, y: 32, w: 80, h: 16, color: BLACK },
        ]
    );
    let ops = t.print_string("0123456789X");
    assert_eq!(ops.len(), 13);
    assert_eq!(ops[9], glyph(72, 32, '9'));
    assert_eq!(ops[10], DrawOp::ScrollUp { y: 0, height: 32, by: 16 });
    assert_eq!(ops[12], glyph(0, 32, 'X'));
    assert_eq!(
        t.print_string_colored(0x123456, "c"),
        vec![DrawOp::Glyph { x: 8, y: 32, color: 0x123456, c: 'c' }]
    );
    // the default color is in use again
    assert_eq!(t.print_string("d"), vec![glyph(16, 32, 'd')]);
}

#[test]
fn terminal_clear_erase_and_print_at() {
    let mut t = Terminal::new(80, 48, 8, 16);
    assert_eq!(t.clear(), DrawOp::FillRect { x: 0, y: 0, w: 80, h: 48, color: BLACK });
    assert_eq!(t.draw_cursor(), glyph(0, 16, '_'));
    // from the start of a line the cursor goes to the end of the line above
    assert_eq!(t.erase_char_on_screen(), glyph(0, 16, ' '));
    assert_eq!(t.draw_cursor(), glyph(72, 0, '_'));
    t.erase_char_on_screen();
    assert_eq!(t.draw_cursor(), glyph(64, 0, '_'));
    // printing elsewhere leaves the cursor where it was
    assert_eq!(t.print_string_at(3, 2, "x"), vec![glyph(24, 32, 'x')]);
    assert_eq!(t.print_string_at(50, 50, "y"), vec![glyph(72, 32, 'y')]);
    assert_eq!(t.draw_cursor(), glyph(64, 0, '_'));
}

#[test]
fn terminal_upper_half() {
    let mut t = Terminal::new(80, 48, 8, 16);
    t.print_string("\n\n");
    t.set_upper_half_mode(true);
    // one line of 16 pixels is left: the cursor moves up into it
    assert_eq!(t.draw_cursor(), glyph(0, 0, '_'));
    assert_eq!(t.clear(), DrawOp::FillRect { x: 0, y: 0, w: 80, h: 16, color: BLACK });
    assert_eq!(t.print_string("\n"), vec![DrawOp::FillRect { x: 0, y: 0, w: 80, h: 16, color: BLACK }]);
    t.set_upper_half_mode(false);
    assert_eq!(t.clear(), DrawOp::FillRect { x: 0, y: 0, w: 80, h: 48, color: BLACK });
}

#[test]
fn terminal_printing_in_parts_draws_the_same() {
    let mut whole = Terminal::new(80, 48, 8, 16);
    let mut parts = Terminal::new(80, 48, 8, 16);
    let all = whole.print_string("hello\nworld, wrapping text");
    let mut pieces = parts.print_string("hello\nwor");
    pieces.extend(parts.print_string("ld, wrapping text"));
    assert_eq!(all, pieces);
    assert_eq!(whole.draw_cursor(), parts.draw_cursor());
}
