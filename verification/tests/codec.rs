use connectalso::codec::{append, bytes_equal, copy_range, push_be, push_le, read_be};
use connectalso::text::{chars_of, is_before, push_decimal, same};

#[test]
fn numbers_are_written_in_both_orders() {
    let mut buf = vec![9];
    push_be(&mut buf, 0x0102_0304, 4);
    push_le(&mut buf, 0x0102_0304, 8);
    assert_eq!(buf, [9, 1, 2, 3, 4, 4, 3, 2, 1, 0, 0, 0, 0]);
    assert_eq!(read_be(&buf, 1, 4), 0x0102_0304);
    assert_eq!(read_be(&buf, 0, 0), 0);
}

#[test]
fn bytes_are_copied_and_compared() {
    let mut buf = copy_range(&[1, 2, 3, 4], 1, 3);
    append(&mut buf, &[5]);
    assert_eq!(buf, [2, 3, 5]);
    assert!(bytes_equal(&buf, &[2, 3, 5]));
    assert!(!bytes_equal(&buf, &[2, 3]));
    assert!(!bytes_equal(&buf, &[2, 3, 6]));
}

#[test]
fn text_is_compared_by_character() {
    assert!(same("abc", "abc"));
    assert!(!same("abc", "abd"));
    assert_eq!(chars_of("aé"), ['a', 'é']);
    assert!(is_before("10.0.0.10", "10.0.0.2"));
    assert!(is_before("", "a"));
    assert!(is_before("a", "ab"));
    assert!(!is_before("a", "a"));
    assert!(!is_before("b", "ab"));
    let mut out = String::from("n=");
    push_decimal(&mut out, 18_446_744_073_709_551_615);
    assert_eq!(out, "n=18446744073709551615");
}
