use hhu_tosr::apps::graphic::{lerp_color_1d, linear_interpolate_2d};
use hhu_tosr::apps::gui::{layout, terminal_split_y, Gui, GuiOp, Rect};
use hhu_tosr::apps::programs::{
    cursor_square, echo_output, kill_message, mouse_move, spinner_status_line, spinner_thread_index,
    spinner_thread_line, spinner_thread_name, threads_count,
};
use hhu_tosr::apps::shell::{equals_str, execute_command, history_lines, join, not_found_message, UserCommand};
use hhu_tosr::user::shell_commands::KillRequest;

fn words(ws: &[&str]) -> Vec<Vec<u8>> {
    ws.iter().map(|w| w.as_bytes().to_vec()).collect()
}

fn text(v: Vec<u8>) -> String {
    String::from_utf8(v).unwrap()
}

#[test]
fn color_interpolation() {
    assert_eq!(lerp_color_1d(0, 100, 0xff0000, 0x0000ff), 0xff0000);
    assert_eq!(lerp_color_1d(100, 100, 0xff0000, 0x0000ff), 0x0000ff);
    assert_eq!(lerp_color_1d(50, 100, 0xff0000, 0x0000ff), 0x7f007f);
    assert_eq!(lerp_color_1d(3, 0, 0x123456, 0xffffff), 0x123456);
    assert_eq!(linear_interpolate_2d(0, 0, 10, 10, 0x111111, 0x222222, 0x333333, 0x444444), 0x111111);
    assert_eq!(linear_interpolate_2d(10, 10, 10, 10, 0x111111, 0x222222, 0x333333, 0x444444), 0x444444);
    assert_eq!(linear_interpolate_2d(5, 0, 10, 10, 0, 0xc8, 0, 0), 0x64);
    assert_eq!(linear_interpolate_2d(5, 5, 10, 10, 0, 0xc8, 0, 0), 0x32);
}

#[test]
fn echo_program_output() {
    assert_eq!(echo_output(&words(&["a", "b"])), b"a b \n".to_vec());
    assert!(echo_output(&Vec::new()).is_empty());
}

#[test]
fn kill_program_messages() {
    assert_eq!(text(kill_message(&KillRequest::Kill(3))), "Thread 3 killed");
    assert_eq!(text(kill_message(&KillRequest::Invalid(b"x".to_vec()))), "kill: invalid TID 'x'");
    assert_eq!(text(kill_message(&KillRequest::Usage)), "Usage: kill <tid>");
}

#[test]
fn spinner_threads_program() {
    assert_eq!(threads_count(&Vec::new()), 1);
    assert_eq!(threads_count(&words(&["5"])), 5);
    assert_eq!(threads_count(&words(&["100"])), 40);
    assert_eq!(threads_count(&words(&["x"])), 1);
    assert_eq!(text(spinner_thread_name(7)), "threads-7");
    assert_eq!(spinner_thread_index(&words(&["12"])), 12);
    assert_eq!(spinner_thread_index(&Vec::new()), 0);
    assert_eq!(text(spinner_thread_line(3, b'|')), "Thread  3: |  ");
    assert_eq!(text(spinner_thread_line(12, b'-')), "Thread 12: -  ");
    assert_eq!(
        text(spinner_status_line(b'/', 2, 5, 50 * 1024 * 1024, 100 * 1024 * 1024)),
        "/ P:2 T:5    Memmory used: 50/100 MB"
    );
}

#[test]
fn mouse_program_cursor() {
    assert_eq!(mouse_move(5, 5, -10, 3, 100, 100), (0, 8));
    assert_eq!(mouse_move(95, 50, 10, 0, 100, 100), (90, 50));
    assert_eq!(cursor_square(95, 0, 100, 100), (95, 0, 5, 10));
    assert_eq!(cursor_square(100, 100, 100, 100), (100, 100, 0, 0));
}

#[test]
fn user_shell_commands() {
    match execute_command(&b"-d hello a  b".to_vec()) {
        UserCommand::Run { name, args, detach } => {
            assert_eq!(name, b"hello".to_vec());
            assert_eq!(args, b"a b".to_vec());
            assert!(detach);
        }
        other => panic!("unexpected {:?}", other),
    }
    match execute_command(&b"hello".to_vec()) {
        UserCommand::Run { name, args, detach } => {
            assert_eq!(name, b"hello".to_vec());
            assert!(args.is_empty());
            assert!(!detach);
        }
        other => panic!("unexpected {:?}", other),
    }
    match execute_command(&b"-dx".to_vec()) {
        UserCommand::Run { name, detach, .. } => {
            assert_eq!(name, b"-dx".to_vec());
            assert!(!detach);
        }
        other => panic!("unexpected {:?}", other),
    }
    assert!(matches!(execute_command(&b" help ".to_vec()), UserCommand::Help));
    assert!(matches!(execute_command(&b"vmas".to_vec()), UserCommand::Vmas));
    assert!(matches!(execute_command(&b"   ".to_vec()), UserCommand::Empty));
    assert!(matches!(execute_command(&b"-d ".to_vec()), UserCommand::Empty));
    assert_eq!(text(not_found_message(&b"foo".to_vec())), "Error: Command not found 'foo'");
    assert_eq!(history_lines(&words(&["ls", "ps"])), words(&["    1: ls", "    2: ps"]));
    assert_eq!(join(&words(&["a", "b", "c"]), 1), b"b c".to_vec());
    assert!(equals_str(&b"ps".to_vec(), "ps"));
    assert!(!equals_str(&b"ps".to_vec(), "p"));
}

#[test]
fn launcher_layout() {
    let l = layout(800, 600, 300);
    assert_eq!(l.header, Rect { x: 12, y: 310, w: 776, h: 28 });
    assert_eq!(l.footer, Rect { x: 12, y: 562, w: 776, h: 28 });
    assert_eq!(l.body, Rect { x: 12, y: 346, w: 776, h: 208 });
    assert_eq!(l.exit, Rect { x: 730, y: 314, w: 44, h: 20 });
    assert_eq!(l.toggle, Rect { x: 596, y: 312, w: 124, h: 24 });
    assert_eq!(l.args_field, Rect { x: 22, y: 312, w: 564, h: 24 });
    assert_eq!(l.prev, Rect { x: 336, y: 566, w: 26, h: 20 });
    assert_eq!(l.page_label, Rect { x: 370, y: 566, w: 60, h: 20 });
    assert_eq!(l.next, Rect { x: 438, y: 566, w: 26, h: 20 });
    assert_eq!((l.columns, l.rows), (4, 5));
    let narrow = layout(300, 600, 300);
    assert_eq!(narrow.columns, 1);
    assert_eq!(terminal_split_y(600, 16), 288);
    assert_eq!(terminal_split_y(10, 16), 16);
    let r = Rect { x: 10, y: 10, w: 5, h: 5 };
    assert!(r.contains(10, 10));
    assert!(r.contains(14, 14));
    assert!(!r.contains(15, 10));
    assert!(!r.contains(-1, 12));
}

fn launcher() -> Gui {
    Gui::new(words(&["shell", "clock", "hello"]), 800, 600, 300)
}

#[test]
fn launcher_sorts_and_pages() {
    let g = launcher();
    assert_eq!(g.app_name(0), &b"clock".to_vec());
    assert_eq!(g.app_name(2), &b"shell".to_vec());
    assert_eq!(g.buttons_per_page(800, 600, 300), 20);
    assert_eq!(g.page_count(800, 600, 300), 1);
    let rects = g.visible_button_rects(800, 600, 300);
    assert_eq!(
        rects,
        vec![
            (0, Rect { x: 22, y: 356, w: 183, h: 28 }),
            (1, Rect { x: 213, y: 356, w: 183, h: 28 }),
            (2, Rect { x: 404, y: 356, w: 183, h: 28 }),
        ]
    );
    let empty = Gui::new(Vec::new(), 800, 600, 300);
    assert_eq!(empty.page_count(800, 600, 300), 1);
    assert!(empty.visible_button_rects(800, 600, 300).is_empty());
}

#[test]
fn launcher_keys() {
    let mut g = launcher();
    assert!(g.handle_key(b'a', 30, 800, 600, 300));
    assert!(g.handle_key(b' ', 57, 800, 600, 300));
    assert_eq!(g.launch_args(), b"a".to_vec());
    assert!(g.handle_key(8, 14, 800, 600, 300));
    assert!(g.handle_key(8, 14, 800, 600, 300));
    assert!(!g.handle_key(8, 14, 800, 600, 300));
    // only one page: the right arrow does nothing
    assert!(!g.handle_key(0, 77, 800, 600, 300));
    assert!(g.handle_key(0, 15, 800, 600, 300));
    assert!(!g.quit_requested());
    assert!(g.handle_key(27, 1, 800, 600, 300));
    assert!(g.quit_requested());
}

#[test]
fn launcher_argument_field_is_bounded() {
    let mut g = launcher();
    for _ in 0..128 {
        g.handle_key(b'x', 45, 800, 600, 300);
    }
    assert_eq!(g.launch_args().len(), 128);
    assert!(g.handle_key(b'y', 21, 800, 600, 300));
    assert_eq!(g.launch_args().len(), 128);
}

#[test]
fn launcher_mouse() {
    let mut g = launcher();
    // from (400, 450) onto the second app button, pressing the left button
    let (redraw, launch) = g.handle_mouse_event(-180, -90, 1, 800, 600, 300);
    assert!(redraw);
    assert_eq!(launch, Some(1));
    assert!(!g.launch_outcome(1, 0));
    g.handle_key(0, 15, 800, 600, 300);
    assert!(!g.launch_outcome(1, 7));
    g.handle_key(0, 15, 800, 600, 300);
    assert!(g.launch_outcome(1, 7));
    // onto the argument field
    let (_, launch) = g.handle_mouse_event(-190, -40, 1, 800, 600, 300);
    assert_eq!(launch, None);
    // releasing the button redraws; the mouse cannot leave the launcher's part
    assert_eq!(g.handle_mouse_event(0, 0, 0, 800, 600, 300), (true, None));
    assert_eq!(g.handle_mouse_event(0, -1000, 0, 800, 600, 300), (true, None));
    assert_eq!(g.handle_mouse_event(0, -5, 0, 800, 600, 300), (false, None));
    // onto the exit button from (30, 300)
    g.handle_mouse_event(710, 20, 1, 800, 600, 300);
    assert!(g.quit_requested());
}

#[test]
fn launcher_render() {
    let g = launcher();
    let ops = g.render(800, 600, 300, 8, 16);
    match ops.last() {
        Some(GuiOp::Flush { x, y, w, h }) => assert_eq!((*x, *y, *w, *h), (0, 300, 800, 300)),
        other => panic!("unexpected {:?}", other),
    }
    match &ops[0] {
        GuiOp::Fill { x, y, w, h, .. } => assert_eq!((*x, *y, *w, *h), (0, 300, 800, 300)),
        other => panic!("unexpected {:?}", other),
    }
    assert!(ops.iter().any(|op| matches!(op, GuiOp::Text { text, .. } if text == b"ready: 3 apps available")));
    assert!(ops.iter().any(|op| matches!(op, GuiOp::Text { text, .. } if text == b"clock")));
}

#[test]
fn long_lines_interpolate_without_overflow() {
    assert_eq!(lerp_color_1d(0x100_0000, 0x100_0000, 0xffffff, 0x000000), 0x000000);
    assert_eq!(lerp_color_1d(0x80_0000, 0x100_0000, 0xffffff, 0x000000), 0x7f7f7f);
}

#[test]
fn launcher_on_large_and_odd_screens() {
    // the launcher's part starts below the end of the screen: one row, an empty body
    let l = layout(800, 300, 400);
    assert_eq!(l.body.h, 0);
    assert_eq!(l.rows, 1);
    assert_eq!(l.footer.y, 262);
    // a screen far larger than usual
    let big = layout(0x4000_0000, 0x4000_0000, 0x1000);
    assert_eq!(big.columns, 4);
    assert_eq!(big.header.w, 0x4000_0000 - 24);
    let mut g = launcher();
    assert_eq!(g.buttons_per_page(0x4000_0000, 0x4000_0000, 0x1000), 4 * big.rows as usize);
    assert_eq!(g.page_count(0x4000_0000, 0x4000_0000, 0x1000), 1);
    let ops = g.render(0x4000_0000, 0x4000_0000, 0x1000, 8, 16);
    assert!(!ops.is_empty());
    // editing the argument field needs no layout
    assert!(g.handle_key(b'z', 44, 0, 0, u32::MAX));
    assert_eq!(g.launch_args(), b"z".to_vec());
}

#[test]
fn launcher_buttons_never_overlap() {
    let names: Vec<String> = (0..30).map(|i| format!("app{:02}", i)).collect();
    let refs: Vec<&str> = names.iter().map(|n| n.as_str()).collect();
    let g = Gui::new(words(&refs), 800, 600, 300);
    let rects = g.visible_button_rects(800, 600, 300);
    assert_eq!(rects.len(), 20);
    for i in 0..rects.len() {
        for j in (i + 1)..rects.len() {
            let (a, b) = (rects[i].1, rects[j].1);
            assert!(
                a.x + a.w <= b.x || b.x + b.w <= a.x || a.y + a.h <= b.y || b.y + b.h <= a.y,
                "buttons {} and {} overlap",
                i,
                j
            );
        }
    }
}

#[test]
fn launcher_layout_near_the_end_of_the_range() {
    let top = u32::MAX - 54;
    let l = layout(800, 600, top);
    assert_eq!(l.header, Rect { x: 12, y: top + 10, w: 776, h: 28 });
    assert_eq!(l.body, Rect { x: 12, y: top + 46, w: 776, h: 0 });
    assert_eq!((l.columns, l.rows), (4, 1));
}
