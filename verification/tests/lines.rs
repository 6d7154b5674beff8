use bevy_serial::{read_report, split_fields, LineAssembler};

fn texts(parts: Vec<Vec<u8>>) -> Vec<String> {
    parts.into_iter().map(|part| String::from_utf8(part).unwrap()).collect()
}

#[test]
fn line_is_taken_once_it_is_complete() {
    let mut assembler = LineAssembler::new();
    assert!(assembler.accept(b"a b c 1.0 "));
    assert_eq!(assembler.take_last_line(), None);
    assert_eq!(assembler.len(), 10);
    assert!(assembler.accept(b"2.0 3.0\nd e"));
    assert_eq!(assembler.take_last_line(), Some(b"a b c 1.0 2.0 3.0".to_vec()));
    assert_eq!(assembler.len(), 3);
    assert_eq!(assembler.take_last_line(), None);
    assert!(assembler.accept(b" f\n"));
    assert_eq!(assembler.take_last_line(), Some(b"d e f".to_vec()));
    assert_eq!(assembler.len(), 0);
}

#[test]
fn only_the_last_complete_line_is_given_out() {
    let mut assembler = LineAssembler::new();
    assert!(assembler.accept(b"first\nsecond\nthird\nrest"));
    assert_eq!(assembler.take_last_line(), Some(b"third".to_vec()));
    assert_eq!(assembler.len(), 4);
    assert_eq!(assembler.take_last_line(), None);
}

#[test]
fn empty_lines_are_lines() {
    let mut assembler = LineAssembler::new();
    assert!(assembler.accept(b"x\n\n"));
    assert_eq!(assembler.take_last_line(), Some(Vec::new()));
    assert_eq!(assembler.len(), 0);
    assert!(assembler.accept(b"\n"));
    assert_eq!(assembler.take_last_line(), Some(Vec::new()));
}

#[test]
fn message_that_is_not_text_is_left_out() {
    let mut assembler = LineAssembler::new();
    assert!(assembler.accept(b"12 "));
    assert!(!assembler.accept(&[0x34, 0xff, 0x0a]));
    assert!(!assembler.accept(&[0xc3]));
    assert!(!assembler.accept(&[0xed, 0xa0, 0x80]));
    assert!(!assembler.accept(&[0xc0, 0x80]));
    assert_eq!(assembler.len(), 3);
    assert!(assembler.accept("gr\u{fc}n \u{20ac}\n".as_bytes()));
    assert_eq!(assembler.take_last_line(), Some("12 gr\u{fc}n \u{20ac}".as_bytes().to_vec()));
}

#[test]
fn empty_message_is_text() {
    let mut assembler = LineAssembler::new();
    assert!(assembler.accept(b""));
    assert_eq!(assembler.len(), 0);
    assert_eq!(assembler.take_last_line(), None);
}

#[test]
fn fields_are_cut_at_each_space() {
    assert_eq!(texts(split_fields(b"12 34 56")), vec!["12", "34", "56"]);
    assert_eq!(texts(split_fields(b"a  b")), vec!["a", "", "b"]);
    assert_eq!(texts(split_fields(b" a ")), vec!["", "a", ""]);
    assert_eq!(texts(split_fields(b"")), vec![""]);
    assert_eq!(texts(split_fields(b" ")), vec!["", ""]);
    assert_eq!(texts(split_fields(b"one")), vec!["one"]);
    assert_eq!(texts(split_fields(b"a\tb c")), vec!["a\tb", "c"]);
}

#[test]
fn fields_agree_with_split_of_the_standard_library() {
    for line in ["t 1 2 0.5 -0.25 1e3", "", "   ", "x y", "a b c d e f g", " lead", "trail "] {
        let expected: Vec<String> = line.split(' ').map(|part| part.to_string()).collect();
        assert_eq!(texts(split_fields(line.as_bytes())), expected);
    }
}

#[test]
fn report_has_three_values_after_three_leading_fields() {
    assert_eq!(
        read_report(b"imu 17 ok 0.5 -1.25 3"),
        Some((b"0.5".to_vec(), b"-1.25".to_vec(), b"3".to_vec()))
    );
    assert_eq!(
        read_report(b"   x  z"),
        Some((b"x".to_vec(), b"".to_vec(), b"z".to_vec()))
    );
}

#[test]
fn line_with_other_than_six_fields_is_no_report() {
    assert_eq!(read_report(b""), None);
    assert_eq!(read_report(b"12 34 56"), None);
    assert_eq!(read_report(b"a b c 1 2"), None);
    assert_eq!(read_report(b"a b c 1 2 3 4"), None);
    assert_eq!(read_report(b"a b c 1 2 3 "), None);
}
