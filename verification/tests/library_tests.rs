use hhu_tosr::library::id_counter::IdCounter;
use hhu_tosr::library::line_editor::{vec_equal, EditOutcome, LineEditor, KEY_BACKSPACE, KEY_ENTER};
use hhu_tosr::library::stack_string::StackString;
use hhu_tosr::library::text::{
    bytes_le, copy_range, decimal_text, parse_u32, parse_usize, push_bytes, push_decimal, push_hex,
    push_padded, push_str, sort_bytes, split_whitespace, trim_bytes,
};
use hhu_tosr::library::utils::strings_equal;

fn type_line(e: &mut LineEditor, s: &str) -> EditOutcome {
    for b in s.bytes() {
        e.handle_ascii(b);
    }
    e.handle_ascii(KEY_ENTER)
}

#[test]
fn id_counter_counts_and_wraps() {
    let mut c = IdCounter::new(1);
    assert_eq!(c.next_id(), 1);
    assert_eq!(c.next_id(), 2);
    let mut w = IdCounter::new(usize::MAX);
    assert_eq!(w.next_id(), usize::MAX);
    assert_eq!(w.next_id(), 0);
}

#[test]
fn strings_compare_bytewise() {
    assert!(strings_equal("shell", "shell"));
    assert!(!strings_equal("shell", "shel"));
    assert!(!strings_equal("abc", "abd"));
    assert!(strings_equal("", ""));
}

#[test]
fn numbers_as_text() {
    assert_eq!(decimal_text(0), b"0".to_vec());
    assert_eq!(decimal_text(1234567), b"1234567".to_vec());
    assert_eq!(decimal_text(u64::MAX), b"18446744073709551615".to_vec());
    let mut out = Vec::new();
    push_hex(&mut out, 0xbeef);
    push_str(&mut out, " ");
    push_hex(&mut out, 0);
    push_str(&mut out, " ");
    push_decimal(&mut out, 42);
    push_bytes(&mut out, b"!");
    assert_eq!(out, b"beef 0 42!".to_vec());
    let mut padded = Vec::new();
    push_padded(&mut padded, &b"7".to_vec(), 3, b'0');
    push_padded(&mut padded, &b"1234".to_vec(), 2, b' ');
    assert_eq!(padded, b"0071234".to_vec());
}

#[test]
fn parsing_unsigned_numbers() {
    assert_eq!(parse_usize(b"42"), Some(42));
    assert_eq!(parse_usize(b"+5"), Some(5));
    assert_eq!(parse_usize(b"007"), Some(7));
    assert_eq!(parse_usize(b""), None);
    assert_eq!(parse_usize(b"+"), None);
    assert_eq!(parse_usize(b"-1"), None);
    assert_eq!(parse_usize(b"1a"), None);
    assert_eq!(parse_usize(b" 1"), None);
    assert_eq!(parse_usize(b"18446744073709551615"), Some(usize::MAX));
    assert_eq!(parse_usize(b"18446744073709551616"), None);
    assert_eq!(parse_u32(b"4294967295"), Some(u32::MAX));
    assert_eq!(parse_u32(b"4294967296"), None);
    // a number written out reads back as itself
    for n in [0u64, 9, 10, 99, 12345, 4294967295] {
        assert_eq!(parse_usize(&decimal_text(n)), Some(n as usize));
    }
}

#[test]
fn trimming_and_splitting() {
    assert_eq!(trim_bytes(b"  ls -l \t\n"), b"ls -l".to_vec());
    assert_eq!(trim_bytes(b" \t "), Vec::<u8>::new());
    assert_eq!(trim_bytes(b"x"), b"x".to_vec());
    assert_eq!(
        split_whitespace(b"  echo  hello\tworld "),
        vec![b"echo".to_vec(), b"hello".to_vec(), b"world".to_vec()]
    );
    assert!(split_whitespace(b"   ").is_empty());
    assert_eq!(copy_range(b"abcdef", 1, 4), b"bcd".to_vec());
}

#[test]
fn byte_strings_sort() {
    assert!(bytes_le(&b"ab".to_vec(), &b"abc".to_vec()));
    assert!(!bytes_le(&b"b".to_vec(), &b"abc".to_vec()));
    assert!(bytes_le(&b"".to_vec(), &b"".to_vec()));
    let sorted = sort_bytes(vec![b"shell".to_vec(), b"clock".to_vec(), b"hello".to_vec(), b"clock".to_vec()]);
    assert_eq!(
        sorted,
        vec![b"clock".to_vec(), b"clock".to_vec(), b"hello".to_vec(), b"shell".to_vec()]
    );
    assert!(sort_bytes(Vec::new()).is_empty());
}

#[test]
fn stack_string_fills_up() {
    let mut s = StackString::new(vec![0u8; 8]);
    assert_eq!(s.write_str("abc"), Ok(()));
    assert_eq!(s.write_str("defgh"), Ok(()));
    assert_eq!(s.as_bytes(), b"abcdefgh".to_vec());
    // full: nothing more is written
    assert_eq!(s.write_str("i"), Err(()));
    assert_eq!(s.as_bytes(), b"abcdefgh".to_vec());
    let mut t = StackString::new(vec![0u8; 4]);
    assert_eq!(t.write_str("hello"), Err(()));
    assert_eq!(t.as_bytes(), Vec::<u8>::new());
}

#[test]
fn line_editor_edits_and_submits() {
    let mut e = LineEditor::new();
    assert!(matches!(e.handle_ascii(b'l'), EditOutcome::Echo(b'l')));
    e.handle_ascii(b's');
    e.handle_ascii(b'x');
    assert!(matches!(e.handle_ascii(KEY_BACKSPACE), EditOutcome::Erase));
    assert_eq!(e.buffer(), &b"ls".to_vec());
    // a control character is ignored
    assert!(matches!(e.handle_ascii(7), EditOutcome::Ignore));
    match e.handle_ascii(KEY_ENTER) {
        EditOutcome::Submit { command } => assert_eq!(command, Some(b"ls".to_vec())),
        other => panic!("unexpected {:?}", other),
    }
    assert!(e.buffer().is_empty());
    assert!(matches!(e.handle_ascii(KEY_BACKSPACE), EditOutcome::Ignore));
    // a blank line runs nothing and is not remembered
    assert!(matches!(type_line(&mut e, "   "), EditOutcome::Submit { command: None }));
    assert_eq!(e.history().len(), 1);
}

#[test]
fn line_editor_history() {
    let mut e = LineEditor::new();
    assert!(e.navigate_history(true).is_none());
    type_line(&mut e, " ps ");
    type_line(&mut e, "ls");
    type_line(&mut e, "ls");
    assert_eq!(e.history(), &vec![b"ps".to_vec(), b"ls".to_vec()]);
    e.handle_ascii(b'x');
    let up = e.navigate_history(true).unwrap();
    assert_eq!(up.erase, 1);
    assert_eq!(up.load, Some(b"ls".to_vec()));
    let up2 = e.navigate_history(true).unwrap();
    assert_eq!(up2.load, Some(b"ps".to_vec()));
    // the oldest entry stays
    assert_eq!(e.navigate_history(true).unwrap().load, Some(b"ps".to_vec()));
    // up then down comes back
    assert_eq!(e.navigate_history(false).unwrap().load, Some(b"ls".to_vec()));
    let past = e.navigate_history(false).unwrap();
    assert_eq!(past.erase, 2);
    assert_eq!(past.load, None);
    assert!(e.buffer().is_empty());
    assert!(vec_equal(&b"ab".to_vec(), &b"ab".to_vec()));
    assert!(!vec_equal(&b"ab".to_vec(), &b"abc".to_vec()));
}
