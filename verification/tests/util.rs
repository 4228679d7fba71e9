use avb_descriptor::error::DescriptorError;
use avb_descriptor::util::{check_c_string, split_slice};

#[test]
fn split_slice_in_the_middle() {
    let data = [1u8, 2, 3, 4, 5];
    let (head, tail) = split_slice(&data, 2).unwrap();
    assert_eq!(head, &[1u8, 2][..]);
    assert_eq!(tail, &[3u8, 4, 5][..]);
}

#[test]
fn split_slice_at_the_ends() {
    let data = [1u8, 2, 3];
    let (head, tail) = split_slice(&data, 0).unwrap();
    assert!(head.is_empty());
    assert_eq!(tail, &data[..]);
    let (head, tail) = split_slice(&data, 3).unwrap();
    assert_eq!(head, &data[..]);
    assert!(tail.is_empty());
}

#[test]
fn split_slice_of_empty_buffer() {
    let data: [u8; 0] = [];
    let (head, tail) = split_slice(&data, 0).unwrap();
    assert!(head.is_empty());
    assert!(tail.is_empty());
    assert_eq!(split_slice(&data, 1).unwrap_err(), DescriptorError::InvalidSize);
}

#[test]
fn split_slice_too_long_is_a_size_error() {
    let data = [1u8, 2, 3];
    assert_eq!(split_slice(&data, 4).unwrap_err(), DescriptorError::InvalidSize);
    assert_eq!(split_slice(&data, u64::MAX).unwrap_err(), DescriptorError::InvalidSize);
    assert_eq!(split_slice(&data, 1 << 32).unwrap_err(), DescriptorError::InvalidSize);
}

#[test]
fn split_slice_borrows_without_copying() {
    let data = [9u8, 8, 7, 6];
    let (head, tail) = split_slice(&data, 1).unwrap();
    assert_eq!(head.as_ptr(), data.as_ptr());
    assert_eq!(tail.as_ptr(), data[1..].as_ptr());
}

#[test]
fn check_c_string_cases() {
    assert!(check_c_string(b"foo\0"));
    assert!(check_c_string(b"\0"));
    assert!(!check_c_string(b""));
    assert!(!check_c_string(b"foo"));
    assert!(!check_c_string(b"f\0o\0"));
    assert!(!check_c_string(b"\0\0"));
    assert!(!check_c_string(b"foo\0!"));
}
