use vibe_terminal::exit_code::{parse_exit_code, EXIT_CODE_UNKNOWN};

#[test]
fn sentinel_is_minus_one() {
    assert_eq!(EXIT_CODE_UNKNOWN, -1);
}

#[test]
fn digits_are_read_in_base_ten() {
    assert_eq!(parse_exit_code(b"0"), 0);
    assert_eq!(parse_exit_code(b"9"), 9);
    assert_eq!(parse_exit_code(b"10"), 10);
    assert_eq!(parse_exit_code(b"130"), 130);
    assert_eq!(parse_exit_code(b"1234567890"), 1234567890);
}

#[test]
fn a_sign_may_stand_in_front() {
    assert_eq!(parse_exit_code(b"-130"), -130);
    assert_eq!(parse_exit_code(b"+130"), 130);
    assert_eq!(parse_exit_code(b"-"), EXIT_CODE_UNKNOWN);
    assert_eq!(parse_exit_code(b"+"), EXIT_CODE_UNKNOWN);
    assert_eq!(parse_exit_code(b"+-1"), EXIT_CODE_UNKNOWN);
    assert_eq!(parse_exit_code(b"1-"), EXIT_CODE_UNKNOWN);
}

#[test]
fn the_range_is_that_of_32_bits() {
    assert_eq!(parse_exit_code(b"2147483647"), i32::MAX);
    assert_eq!(parse_exit_code(b"+2147483647"), i32::MAX);
    assert_eq!(parse_exit_code(b"-2147483648"), i32::MIN);
    assert_eq!(parse_exit_code(b"2147483648"), EXIT_CODE_UNKNOWN);
    assert_eq!(parse_exit_code(b"-2147483649"), EXIT_CODE_UNKNOWN);
    assert_eq!(parse_exit_code(b"21474836470"), EXIT_CODE_UNKNOWN);
    assert_eq!(parse_exit_code(b"18446744073709551616"), EXIT_CODE_UNKNOWN);
    assert_eq!(parse_exit_code(b"340282366920938463463374607431768211456"), EXIT_CODE_UNKNOWN);
    assert_eq!(parse_exit_code(b"0000000002147483647"), i32::MAX);
}

#[test]
fn anything_else_is_unknown() {
    assert_eq!(parse_exit_code(b""), EXIT_CODE_UNKNOWN);
    assert_eq!(parse_exit_code(b"oops"), EXIT_CODE_UNKNOWN);
    assert_eq!(parse_exit_code(b"1\n"), EXIT_CODE_UNKNOWN);
    assert_eq!(parse_exit_code(b"\xff"), EXIT_CODE_UNKNOWN);
    assert_eq!(parse_exit_code(b"/"), EXIT_CODE_UNKNOWN);
    assert_eq!(parse_exit_code(b":"), EXIT_CODE_UNKNOWN);
}
