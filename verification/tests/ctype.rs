use crt_shim::ctype::{abs, isdigit, islower, isspace, isupper, to_byte, toupper};

#[test]
fn digit_class() {
    assert_eq!(isdigit('0' as i32), 1);
    assert_eq!(isdigit('9' as i32), 1);
    assert_eq!(isdigit('/' as i32), 0);
    assert_eq!(isdigit(':' as i32), 0);
    assert_eq!(isdigit(-1), 0);
    assert_eq!(isdigit(0x130), 0);
}

#[test]
fn space_class() {
    for c in [0x20, 0x09, 0x0a, 0x0b, 0x0c, 0x0d] {
        assert_eq!(isspace(c), 1);
    }
    assert_eq!(isspace(0), 0);
    assert_eq!(isspace(0x08), 0);
    assert_eq!(isspace(0x0e), 0);
    assert_eq!(isspace('a' as i32), 0);
}

#[test]
fn letter_classes() {
    assert_eq!(islower('a' as i32), 1);
    assert_eq!(islower('z' as i32), 1);
    assert_eq!(islower('A' as i32), 0);
    assert_eq!(islower('`' as i32), 0);
    assert_eq!(islower('{' as i32), 0);
    assert_eq!(isupper('A' as i32), 1);
    assert_eq!(isupper('Z' as i32), 1);
    assert_eq!(isupper('a' as i32), 0);
    assert_eq!(isupper('@' as i32), 0);
    assert_eq!(isupper('[' as i32), 0);
}

#[test]
fn toupper_changes_lower_case_letters_only() {
    assert_eq!(toupper('a' as i32), 'A' as i32);
    assert_eq!(toupper('z' as i32), 'Z' as i32);
    assert_eq!(toupper('m' as i32), 'M' as i32);
    assert_eq!(toupper('A' as i32), 'A' as i32);
    assert_eq!(toupper('1' as i32), '1' as i32);
    assert_eq!(toupper('{' as i32), '{' as i32);
    assert_eq!(toupper(0x161), 0x161);
    assert_eq!(toupper(-1), -1);
}

#[test]
fn abs_of_both_signs() {
    assert_eq!(abs(5), 5);
    assert_eq!(abs(-5), 5);
    assert_eq!(abs(0), 0);
    assert_eq!(abs(i32::MAX), i32::MAX);
    assert_eq!(abs(i32::MIN + 1), i32::MAX);
}

#[test]
fn to_byte_keeps_low_eight_bits() {
    assert_eq!(to_byte(0x41), 0x41);
    assert_eq!(to_byte(0x141), 0x41);
    assert_eq!(to_byte(-1), 0xff);
    assert_eq!(to_byte(-256), 0);
    assert_eq!(to_byte(255), 255);
}
