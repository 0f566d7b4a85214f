use ttx_runtime::text;

fn decimal(value: u64) -> String {
    let mut out = String::new();
    text::push_decimal(&mut out, value);
    out
}

#[test]
fn numbers_are_written_like_the_standard_library_writes_them() {
    for value in [0, 1, 9, 10, 11, 99, 100, 1024, 65535, u64::MAX] {
        assert_eq!(decimal(value), format!("{value}"));
        let mut hex = String::new();
        text::push_hex(&mut hex, value);
        assert_eq!(hex, format!("{value:x}"));
    }
    for value in [0, 7, -7, 10, -10, i64::MAX, i64::MIN] {
        let mut out = String::new();
        text::push_signed(&mut out, value);
        assert_eq!(out, format!("{value}"));
    }
}

#[test]
fn numbers_are_appended() {
    let mut out = "x".to_string();
    text::push_decimal(&mut out, 12);
    text::push_hex(&mut out, 0xbeef);
    text::push_signed(&mut out, -3);
    assert_eq!(out, "x12beef-3");
}

#[test]
fn replacing_works_from_left_to_right() {
    assert_eq!(text::replace("aaa", "aa", "b"), "ba");
    assert_eq!(text::replace("abcabc", "bc", ""), "aa");
    assert_eq!(text::replace("abc", "x", "y"), "abc");
    assert_eq!(text::replace("", "x", "y"), "");
    assert_eq!(text::replace("ab", "abc", "y"), "ab");
    assert_eq!(text::replace("\u{e9}a\u{e9}", "\u{e9}", "\u{fc}\u{fc}"), "\u{fc}\u{fc}a\u{fc}\u{fc}");
    assert_eq!(text::replace("LEN = {n};", "{n}", "{n}{n}"), "LEN = {n}{n};");
}
