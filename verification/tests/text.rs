use ecobee::text::{join, parse_i64, same};

#[test]
fn texts_are_compared_whole() {
    assert!(same("", ""));
    assert!(same("héllo", "héllo"));
    assert!(!same("abc", "abd"));
    assert!(!same("abc", "ab"));
    assert!(!same("ab", "abc"));
    assert_eq!(join("a", "b"), "ab");
}

#[test]
fn integers_are_parsed_as_the_standard_library_does() {
    for written in [
        "", "+", "-", "0", "-0", "+0", "7", "-7", "+7", "725", "unknown", "72.5", " 7", "7 ", "--7",
        "00012", "9223372036854775807", "9223372036854775808", "-9223372036854775808",
        "-9223372036854775809", "99999999999999999999999", "99999999999999999999999x", "١",
    ] {
        assert_eq!(parse_i64(written), written.parse::<i64>().ok(), "{}", written);
    }
}
