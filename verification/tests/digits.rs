use pi_natives::keys::digits::{parse_digits, parse_optional_digits};

#[test]
fn parse_digits_reads_the_longest_run() {
    assert_eq!(parse_digits(b"123", 0, 3), Some((123, 3)));
    assert_eq!(parse_digits(b"123;", 0, 4), Some((123, 3)));
    assert_eq!(parse_digits(b"ab123cd", 2, 7), Some((123, 5)));
    assert_eq!(parse_digits(b"7", 0, 1), Some((7, 1)));
    assert_eq!(parse_digits(b"0", 0, 1), Some((0, 1)));
    assert_eq!(parse_digits(b"000123", 0, 6), Some((123, 6)));
    assert_eq!(parse_digits(b"0000000000000000000001", 0, 22), Some((1, 22)));
}

#[test]
fn parse_digits_stays_inside_its_window() {
    assert_eq!(parse_digits(b"12345", 0, 3), Some((123, 3)));
    assert_eq!(parse_digits(b"12345", 1, 3), Some((23, 3)));
    assert_eq!(parse_digits(b"12345", 4, 5), Some((5, 5)));
    assert_eq!(parse_digits(b"12345", 3, 3), None);
    assert_eq!(parse_digits(b"12345", 4, 3), None);
    assert_eq!(parse_digits(b"12345", 5, 5), None);
}

#[test]
fn parse_digits_checks_the_bounds_of_the_slice() {
    assert_eq!(parse_digits(b"12", 0, 10), Some((12, 2)));
    assert_eq!(parse_digits(b"12", 2, 10), None);
    assert_eq!(parse_digits(b"12", 7, 10), None);
    assert_eq!(parse_digits(b"", 0, 0), None);
    assert_eq!(parse_digits(b"", 0, usize::MAX), None);
    assert_eq!(parse_digits(b"12", usize::MAX, usize::MAX), None);
}

#[test]
fn parse_digits_needs_a_digit_first() {
    assert_eq!(parse_digits(b"a1", 0, 2), None);
    assert_eq!(parse_digits(b";1", 0, 2), None);
    assert_eq!(parse_digits(b"/1", 0, 2), None);
    assert_eq!(parse_digits(b":1", 0, 2), None);
    assert_eq!(parse_digits(b"-1", 0, 2), None);
    assert_eq!(parse_digits(b"+1", 0, 2), None);
    assert_eq!(parse_digits(b" 1", 0, 2), None);
}

#[test]
fn parse_digits_detects_overflow() {
    assert_eq!(parse_digits(b"4294967295", 0, 10), Some((4294967295, 10)));
    assert_eq!(parse_digits(b"4294967296", 0, 10), None);
    assert_eq!(parse_digits(b"4294967300", 0, 10), None);
    assert_eq!(parse_digits(b"42949672950", 0, 11), None);
    assert_eq!(parse_digits(b"99999999999999999999999999", 0, 26), None);
    assert_eq!(parse_digits(b"04294967295", 0, 11), Some((4294967295, 11)));
    // The window ends the run before it overflows.
    assert_eq!(parse_digits(b"42949672959", 0, 10), Some((4294967295, 10)));
}

#[test]
fn parse_optional_digits_keeps_the_cursor_without_a_value() {
    assert_eq!(parse_optional_digits(b"12:", 0, 3), (Some(12), 2));
    assert_eq!(parse_optional_digits(b":12", 0, 3), (None, 0));
    assert_eq!(parse_optional_digits(b"a", 0, 1), (None, 0));
    assert_eq!(parse_optional_digits(b"12", 2, 2), (None, 2));
    assert_eq!(parse_optional_digits(b"12", 5, 9), (None, 5));
    assert_eq!(parse_optional_digits(b"4294967296", 0, 10), (None, 0));
    assert_eq!(parse_optional_digits(b"x4294967296", 1, 11), (None, 1));
}
