use rev::error::RevError;
use rev::pipeline::{
    validate_encoding, concat_descending, emission_order, reverse_data, reverse_line,
    reverse_text, reversed_artifact,
};
use rev::segment::{segment, Segmenter, BUF_SIZE};
use rev::words::WordReverser;

fn reversed(input: &str) -> String {
    let out = reverse_data(input.as_bytes()).expect("valid input");
    String::from_utf8(out).unwrap()
}

#[test]
fn two_words_swap() {
    assert_eq!(reversed("hello world"), "world hello");
}

#[test]
fn lines_and_words_both_reverse() {
    assert_eq!(reversed("A B\nC D"), "D C\nB A");
}

#[test]
fn trailing_newline_gives_empty_last_line() {
    let lines = segment(b"A B\n");
    assert_eq!(lines.len(), 2);
    assert_eq!(lines[0], b"A B".to_vec());
    assert!(lines[1].is_empty());
    assert_eq!(reversed("A B\n"), "\nB A");
}

#[test]
fn empty_input_gives_one_empty_line() {
    let lines = segment(b"");
    assert_eq!(lines.len(), 1);
    assert!(lines[0].is_empty());
    let out = reverse_data(b"").expect("empty input is accepted");
    assert!(out.is_empty());
}

#[test]
fn line_count_is_newlines_plus_one() {
    let input = "a b c\nd e\n\nf";
    let lines = segment(input.as_bytes());
    assert_eq!(lines.len(), 4);
    assert_eq!(reversed(input), "f\n\ne d\nc b a");
}

#[test]
fn repeated_delimiters_collapse() {
    assert_eq!(reversed("  a   b  "), "b a");
    assert_eq!(reverse_line(b"a  b"), b"b a".to_vec());
    let twice = reverse_line(&reverse_line(b"one  two   three"));
    assert_eq!(twice, b"one two three".to_vec());
}

#[test]
fn line_of_only_delimiters_is_empty() {
    assert!(reverse_line(b"    ").is_empty());
    assert_eq!(reversed("   \nx y"), "y x\n");
}

#[test]
fn words_are_never_changed() {
    let out = reversed("alpha beta\ngamma delta epsilon");
    assert_eq!(out, "epsilon delta gamma\nbeta alpha");
}

#[test]
fn word_spanning_a_chunk_boundary() {
    let mut line = "x".repeat(BUF_SIZE - 4);
    line.push_str(" abcdefgh z");
    let expected = format!("z abcdefgh {}", "x".repeat(BUF_SIZE - 4));
    assert_eq!(reverse_line(line.as_bytes()), expected.into_bytes());
}

#[test]
fn delimiter_at_end_of_chunk() {
    let mut line = "x".repeat(BUF_SIZE - 1);
    line.push_str(" b");
    let expected = format!("b {}", "x".repeat(BUF_SIZE - 1));
    assert_eq!(reverse_line(line.as_bytes()), expected.into_bytes());
}

#[test]
fn newline_at_end_of_chunk() {
    let mut input = "w ".repeat((BUF_SIZE - 1) / 2);
    input.push('q');
    assert_eq!(input.len(), BUF_SIZE - 1);
    input.push_str("\nlast line");
    let lines = segment(input.as_bytes());
    assert_eq!(lines.len(), 2);
    assert_eq!(lines[1], b"last line".to_vec());
    let out = String::from_utf8(reverse_text(input.as_bytes())).unwrap();
    assert!(out.starts_with("line last\nq w "));
}

#[test]
fn invalid_utf8_is_an_encoding_error() {
    let r = reverse_data(&[0x61, 0x20, 0xff, 0x62]);
    assert!(matches!(r, Err(RevError::EncodingError(_))));
    assert!(matches!(validate_encoding(&[0xc3]), Err(RevError::EncodingError(_))));
    assert!(validate_encoding("é ü".as_bytes()).is_ok());
    assert_eq!(reversed("é ü"), "ü é");
}

#[test]
fn artifacts_carry_a_newline_except_the_first() {
    assert_eq!(reversed_artifact(b"a b", 0), b"b a".to_vec());
    assert_eq!(reversed_artifact(b"a b", 1), b"b a\n".to_vec());
    assert_eq!(emission_order(3), vec![2, 1, 0]);
    assert!(emission_order(0).is_empty());
    let arts = vec![b"0".to_vec(), b"1\n".to_vec(), b"2\n".to_vec()];
    assert_eq!(concat_descending(&arts), b"2\n1\n0".to_vec());
}

#[test]
fn segmenter_joins_lines_across_chunks() {
    let mut seg = Segmenter::new();
    seg.feed(b"A B");
    seg.feed(b"\nC");
    seg.feed(b" D\n");
    seg.feed(b"");
    assert_eq!(seg.line_count(), 3);
    let lines = seg.into_lines();
    assert_eq!(lines, vec![b"A B".to_vec(), b"C D".to_vec(), Vec::new()]);
}

#[test]
fn word_reverser_joins_words_across_chunks() {
    let mut w = WordReverser::new();
    w.feed(b"hel");
    w.feed(b"lo wo");
    w.feed(b"rld ");
    w.feed(b" !");
    assert_eq!(w.finish(), b"! world hello".to_vec());
}

#[test]
fn rev_error_from_conversions() {
    let io = std::io::Error::new(std::io::ErrorKind::NotFound, "gone");
    assert!(matches!(RevError::from(io), RevError::IOError(_)));
    let bad = std::str::from_utf8(&[0xff]).unwrap_err();
    assert!(matches!(RevError::from(bad), RevError::EncodingError(_)));
}
