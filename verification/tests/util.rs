use supervisor::number::nat_string;
use supervisor::number::padded_string;
use supervisor::number::parse_signed;
use supervisor::number::parse_unsigned;
use supervisor::util::constant_time_eq;
use supervisor::util::decode_text;
use supervisor::util::find_subslice;
use supervisor::util::join_path;

#[test]
fn finds_and_misses() {
    assert_eq!(find_subslice(b"hello world", b"world"), Some(6));
    assert_eq!(find_subslice(b"hello", b"x"), None);
    assert_eq!(find_subslice(b"abc", b""), None);
    assert_eq!(find_subslice(b"a", b"abc"), None);
}

#[test]
fn constant_time_eq_matches_semantics() {
    assert!(constant_time_eq(b"secret", b"secret"));
    assert!(!constant_time_eq(b"secret", b"secres"));
    assert!(!constant_time_eq(b"secret", b"secre"));
    assert!(constant_time_eq(b"", b""));
    assert!(!constant_time_eq(b"a", b""));
}

#[test]
fn text_is_decoded() {
    assert_eq!(decode_text("gr\u{fc}n".as_bytes()), "gr\u{fc}n");
    assert_eq!(decode_text(&[0x61, 0xc3, 0x28]), "a\u{fffd}(");
}

#[test]
fn paths_are_joined() {
    assert_eq!(join_path("/var/log", "a.log"), "/var/log/a.log");
    assert_eq!(join_path("/var/log/", "a.log"), "/var/log/a.log");
    assert_eq!(join_path("/var/log", "/a.log"), "/a.log");
    assert_eq!(join_path("", "a.log"), "a.log");
}

#[test]
fn numbers_are_written_and_read() {
    assert_eq!(nat_string(0), "0");
    assert_eq!(nat_string(u64::MAX), "18446744073709551615");
    assert_eq!(padded_string(7, 3), "007");
    assert_eq!(padded_string(1234, 3), "1234");
    let chars: Vec<char> = "+42".chars().collect();
    assert_eq!(parse_unsigned(chars.as_slice(), 10, 100), Some(42));
    assert_eq!(parse_unsigned(chars.as_slice(), 10, 41), None);
    let chars: Vec<char> = "-42".chars().collect();
    assert_eq!(parse_signed(chars.as_slice(), -100, 100), Some(-42));
    assert_eq!(parse_signed(chars.as_slice(), 0, 100), None);
    let chars: Vec<char> = "-".chars().collect();
    assert_eq!(parse_signed(chars.as_slice(), -100, 100), None);
}
