use rev::naming::line_file_name;
use rev::splice::{insert, insert_at, splice, OWNER_READ_WRITE};

#[test]
fn insert_at_follows_offsets() {
    let mut f = b"abc".to_vec();
    insert_at(&mut f, 0o644, b"X", 0).unwrap();
    assert_eq!(f, b"Xabc".to_vec());
    insert_at(&mut f, 0o644, b"Y", 3).unwrap();
    assert_eq!(f, b"XabYc".to_vec());
}

#[test]
fn insert_at_end_appends() {
    let mut f = b"abc".to_vec();
    insert_at(&mut f, 0o600, b"de", 3).unwrap();
    assert_eq!(f, b"abcde".to_vec());
    assert_eq!(f.len(), 5);
}

#[test]
fn insert_into_empty() {
    let mut f: Vec<u8> = Vec::new();
    insert_at(&mut f, 0o600, b"data", 0).unwrap();
    assert_eq!(f, b"data".to_vec());
    insert_at(&mut f, 0o600, b"", 2).unwrap();
    assert_eq!(f, b"data".to_vec());
}

#[test]
fn insert_past_end_fills_with_zeros() {
    let mut f = b"ab".to_vec();
    splice(&mut f, b"Z", 4);
    assert_eq!(f, vec![b'a', b'b', 0, 0, b'Z']);
}

#[test]
fn insert_prepends() {
    let mut f = b"world".to_vec();
    insert(&mut f, 0o100644, b"hello ").unwrap();
    assert_eq!(f, b"hello world".to_vec());
}

#[test]
fn insert_without_owner_read_write_is_refused() {
    let mut f = b"abc".to_vec();
    let e = insert_at(&mut f, 0o400, b"X", 1).unwrap_err();
    assert_eq!(e.kind(), std::io::ErrorKind::PermissionDenied);
    assert_eq!(f, b"abc".to_vec());
    assert!(insert(&mut f, OWNER_READ_WRITE - 1, b"X").is_err());
    assert!(insert(&mut f, OWNER_READ_WRITE, b"X").is_ok());
    assert_eq!(f, b"Xabc".to_vec());
}

#[test]
fn artifact_names_are_zero_padded() {
    assert_eq!(line_file_name(7, b"line", b".txt"), b"line_00007.txt".to_vec());
    assert_eq!(line_file_name(0, b"revline", b".txt"), b"revline_00000.txt".to_vec());
    assert_eq!(line_file_name(12345, b"line", b".txt"), b"line_12345.txt".to_vec());
    assert_eq!(line_file_name(123456, b"line", b""), b"line_123456".to_vec());
    assert_eq!(line_file_name(u32::MAX, b"l", b".t"), b"l_4294967295.t".to_vec());
}
