use reprint::{apply_changes, estimated_len, prepare, process, rewrite, sort_changes, verify};
use reprint::{Change, ReprintError};

fn ch(start: u32, end: u32, text: &str) -> Change {
    Change::new(start, end, text.to_string())
}

fn run(input: &str, changes: Vec<Change>) -> Result<Vec<u8>, ReprintError> {
    rewrite(input.to_string(), changes)
}

#[test]
fn empty_batch_leaves_content_identical() {
    let out = run("fn main() {}\n", vec![]).unwrap();
    assert_eq!(out, b"fn main() {}\n".to_vec());
}

#[test]
fn empty_batch_on_empty_content() {
    let out = run("", vec![]).unwrap();
    assert!(out.is_empty());
}

#[test]
fn hello_world_becomes_hello_rust() {
    let out = run("Hello, world!", vec![ch(7, 12, "Rust")]).unwrap();
    assert_eq!(String::from_utf8(out).unwrap(), "Hello, Rust!");
}

#[test]
fn insertion_at_start() {
    let out = run("abc", vec![ch(0, 0, "X")]).unwrap();
    assert_eq!(out, b"Xabc".to_vec());
}

#[test]
fn insertions_at_both_ends() {
    let out = run("abc", vec![ch(0, 0, "X"), ch(3, 3, "Y")]).unwrap();
    assert_eq!(out, b"XabcY".to_vec());
}

#[test]
fn empty_insertion_at_end_keeps_every_byte() {
    let out = run("a", vec![ch(1, 1, "")]).unwrap();
    assert_eq!(out, b"a".to_vec());
}

#[test]
fn insertion_past_end_is_out_of_range() {
    let r = run("abc", vec![ch(0, 0, "X"), ch(4, 4, "Y")]);
    match r {
        Err(ReprintError::OutOfRange { start_byte, end_byte, len }) => {
            assert_eq!((start_byte, end_byte, len), (4, 4, 3));
        }
        other => panic!("unexpected result: {:?}", other),
    }
}

#[test]
fn change_ending_at_content_end() {
    let out = run("Hello, world!", vec![ch(5, 13, "!")]).unwrap();
    assert_eq!(out, b"Hello!".to_vec());
}

#[test]
fn deletion_and_expansion() {
    let out = run("0123456789", vec![ch(1, 3, ""), ch(5, 6, "five")]).unwrap();
    assert_eq!(out, b"034five6789".to_vec());
}

#[test]
fn adjacent_changes_are_accepted() {
    let out = run("abcdef", vec![ch(2, 4, "XY"), ch(0, 2, "__")]).unwrap();
    assert_eq!(out, b"__XYef".to_vec());
}

#[test]
fn multibyte_replacement_text() {
    let out = run("cafe", vec![ch(3, 4, "\u{e9}")]).unwrap();
    assert_eq!(String::from_utf8(out).unwrap(), "caf\u{e9}");
}

#[test]
fn overlapping_changes_are_rejected() {
    let r = run("0123456789", vec![ch(4, 8, "b"), ch(2, 5, "a")]);
    match r {
        Err(ReprintError::OverlappingChanges { prev_start, prev_end, start_byte, end_byte }) => {
            assert_eq!((prev_start, prev_end, start_byte, end_byte), (2, 5, 4, 8));
        }
        other => panic!("unexpected result: {:?}", other),
    }
}

#[test]
fn malformed_change_is_rejected() {
    let r = run("0123456789abcdef", vec![ch(10, 5, "x")]);
    match r {
        Err(ReprintError::MalformedChange { start_byte, end_byte }) => {
            assert_eq!((start_byte, end_byte), (10, 5));
        }
        other => panic!("unexpected result: {:?}", other),
    }
}

#[test]
fn malformed_reported_before_out_of_range() {
    let r = run("abc", vec![ch(10, 5, "x")]);
    assert!(matches!(r, Err(ReprintError::MalformedChange { .. })));
}

#[test]
fn start_beyond_length_is_out_of_range() {
    let r = run("abc", vec![ch(7, 8, "x")]);
    match r {
        Err(ReprintError::OutOfRange { start_byte, end_byte, len }) => {
            assert_eq!((start_byte, end_byte, len), (7, 8, 3));
        }
        other => panic!("unexpected result: {:?}", other),
    }
}

#[test]
fn end_beyond_length_is_out_of_range() {
    let r = run("abc", vec![ch(1, 4, "x")]);
    assert!(matches!(r, Err(ReprintError::OutOfRange { start_byte: 1, end_byte: 4, len: 3 })));
}

#[test]
fn insertion_into_empty_content() {
    let out = run("", vec![ch(0, 0, "x")]).unwrap();
    assert_eq!(out, b"x".to_vec());
    let r = run("", vec![ch(0, 1, "x")]);
    assert!(matches!(r, Err(ReprintError::OutOfRange { start_byte: 0, end_byte: 1, len: 0 })));
}

#[test]
fn round_trip_of_suffix_deletion() {
    let out = run("ab", vec![ch(1, 2, "")]).unwrap();
    assert_eq!(out, b"a".to_vec());
    let back = run("a", vec![ch(1, 1, "b")]).unwrap();
    assert_eq!(back, b"ab".to_vec());
}

#[test]
fn round_trip_restores_original() {
    let original = "Hello, world! Bye.";
    let out = run(original, vec![ch(0, 5, "Hi"), ch(7, 12, "Rust")]).unwrap();
    let out = String::from_utf8(out).unwrap();
    assert_eq!(out, "Hi, Rust! Bye.");
    // The inverse: each replacement text, at its place in the output, goes
    // back to the original bytes.
    let back = run(&out, vec![ch(0, 2, "Hello"), ch(4, 8, "world")]).unwrap();
    assert_eq!(String::from_utf8(back).unwrap(), original);
}

#[test]
fn order_of_changes_does_not_matter() {
    let input = "one two three four";
    let a = run(input, vec![ch(0, 3, "1"), ch(4, 7, "2"), ch(8, 13, "3")]).unwrap();
    let b = run(input, vec![ch(8, 13, "3"), ch(0, 3, "1"), ch(4, 7, "2")]).unwrap();
    let c = run(input, vec![ch(4, 7, "2"), ch(8, 13, "3"), ch(0, 3, "1")]).unwrap();
    assert_eq!(a, b"1 2 3 four".to_vec());
    assert_eq!(a, b);
    assert_eq!(a, c);
}

#[test]
fn equal_starts_keep_given_order() {
    let sorted = sort_changes(vec![ch(5, 5, "b"), ch(1, 2, "a"), ch(5, 5, "c")]);
    let seen: Vec<(u32, u32, String)> =
        sorted.iter().map(|c| (c.start_byte, c.end_byte, c.text.clone())).collect();
    assert_eq!(
        seen,
        vec![(1, 2, "a".to_string()), (5, 5, "b".to_string()), (5, 5, "c".to_string())]
    );
    let out = run("0123456789", vec![ch(5, 5, "b"), ch(5, 5, "c")]).unwrap();
    assert_eq!(out, b"01234bc56789".to_vec());
}

#[test]
fn verify_checks_sorted_batch() {
    assert!(verify(&vec![]).is_ok());
    assert!(verify(&vec![ch(0, 2, ""), ch(2, 4, ""), ch(4, 4, "")]).is_ok());
    assert!(matches!(
        verify(&vec![ch(0, 3, ""), ch(2, 4, "")]),
        Err(ReprintError::OverlappingChanges { prev_start: 0, prev_end: 3, start_byte: 2, end_byte: 4 })
    ));
    assert!(matches!(
        verify(&vec![ch(0, 1, ""), ch(3, 2, ""), ch(0, 9, "")]),
        Err(ReprintError::MalformedChange { start_byte: 3, end_byte: 2 })
    ));
}

#[test]
fn process_appends_to_buffer() {
    let mut buf = b">>".to_vec();
    let r = process("Hello, world!".to_string(), vec![ch(7, 12, "Rust")], &mut buf);
    assert!(r.is_ok());
    assert_eq!(buf, b">>Hello, Rust!".to_vec());
}

#[test]
fn process_failure_leaves_buffer_alone() {
    let mut buf = b">>".to_vec();
    let r = process("abc".to_string(), vec![ch(0, 1, "z"), ch(4, 4, "Y")], &mut buf);
    assert!(matches!(r, Err(ReprintError::OutOfRange { start_byte: 4, end_byte: 4, len: 3 })));
    assert_eq!(buf, b">>".to_vec());
}

#[test]
fn delta_of_each_kind_of_change() {
    assert_eq!(ch(7, 12, "Rust").delta(), -1);
    assert_eq!(ch(3, 3, "abc").delta(), 3);
    assert_eq!(ch(0, 10, "").delta(), -10);
    assert_eq!(ch(0, 1, "\u{e9}").delta(), 1);
}

#[test]
fn estimate_matches_output_length() {
    let changes = vec![ch(0, 5, "Hi"), ch(7, 12, "Rust")];
    assert_eq!(estimated_len(18, &changes), 14);
    assert_eq!(estimated_len(4, &vec![]), 4);
    // A sum below zero is no length: the input length stands instead.
    assert_eq!(estimated_len(3, &vec![ch(0, 10, "")]), 3);
}

#[test]
fn changes_compare_by_start_alone() {
    assert!(ch(3, 4, "a") == ch(3, 9, "b"));
    assert!(ch(1, 9, "a") != ch(2, 2, ""));
    assert!(ch(1, 9, "a") < ch(2, 2, ""));
    assert_eq!(ch(5, 5, "").partial_cmp(&ch(5, 6, "x")), Some(std::cmp::Ordering::Equal));
}

#[test]
fn prepare_sorts_and_validates_without_content() {
    let sorted = prepare(vec![ch(4, 6, "b"), ch(0, 2, "a")]).unwrap();
    let starts: Vec<u32> = sorted.iter().map(|c| c.start_byte).collect();
    assert_eq!(starts, vec![0, 4]);
    assert!(matches!(
        prepare(vec![ch(4, 8, "b"), ch(2, 5, "a")]),
        Err(ReprintError::OverlappingChanges { prev_start: 2, prev_end: 5, start_byte: 4, end_byte: 8 })
    ));
    assert!(matches!(
        prepare(vec![ch(10, 5, "x")]),
        Err(ReprintError::MalformedChange { start_byte: 10, end_byte: 5 })
    ));
}

#[test]
fn apply_changes_to_prepared_batch() {
    let sorted = prepare(vec![ch(3, 3, "Y"), ch(0, 0, "X")]).unwrap();
    let out = apply_changes("abc".to_string(), sorted).unwrap();
    assert_eq!(out, b"XabcY".to_vec());
    let sorted = prepare(vec![ch(5, 5, "!")]).unwrap();
    let r = apply_changes("abc".to_string(), sorted);
    assert!(matches!(r, Err(ReprintError::OutOfRange { start_byte: 5, end_byte: 5, len: 3 })));
}
