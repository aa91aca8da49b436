use xrebalance::text::{
    dec_of, eng, has_text, parse_i64, parse_unsigned, split_once, strip_suffix, text_less,
};

#[test]
fn eng_groups_digits() {
    assert_eq!(eng(0), "0");
    assert_eq!(eng(999), "999");
    assert_eq!(eng(1000), "1_000");
    assert_eq!(eng(10005958), "10_005_958");
    assert_eq!(eng(u64::MAX), "18_446_744_073_709_551_615");
}

#[test]
fn numerals_round_trip() {
    for n in [0, 9, 10, 1234567890, u64::MAX] {
        assert_eq!(dec_of(n), n.to_string());
        assert_eq!(parse_unsigned(&dec_of(n), u64::MAX), Some(n));
    }
}

#[test]
fn integer_literals_read_as_std_reads_them() {
    for text in [
        "", "+", "-", "0", "+7", "-7", "007", "1x", " 1", "18446744073709551615",
        "18446744073709551616", "9223372036854775807", "9223372036854775808",
        "-9223372036854775808", "-9223372036854775809", "+-1", "--1",
    ] {
        assert_eq!(
            parse_unsigned(text, u64::MAX),
            text.parse::<u64>().ok(),
            "{text:?}"
        );
        assert_eq!(parse_i64(text), text.parse::<i64>().ok(), "{text:?}");
        assert_eq!(
            parse_unsigned(text, u32::MAX as u64),
            text.parse::<u32>().ok().map(u64::from),
            "{text:?}"
        );
    }
}

#[test]
fn text_searches_agree_with_std() {
    assert!(has_text("getroutes: Error code 205: no", "Error code 205"));
    assert!(!has_text("getroutes: Error code 206: no", "Error code 205"));
    assert!(has_text("abc", ""));
    assert!(!has_text("ab", "abc"));
    assert_eq!(
        split_once("a/b/c", '/'),
        Some(("a".to_owned(), "b/c".to_owned()))
    );
    assert_eq!(split_once("abc", '/'), None);
    assert_eq!(strip_suffix("250msat", "msat"), Some("250".to_owned()));
    assert_eq!(strip_suffix("250msat", "sat"), Some("250m".to_owned()));
    assert_eq!(strip_suffix("250", "sat"), None);
    for (a, b) in [("02aa", "02ab"), ("02", "020"), ("03", "02"), ("x", "x"), ("", "a")] {
        assert_eq!(text_less(a, b), a < b);
    }
}
