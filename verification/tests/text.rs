use sar::text::{bytes_eq, decode, is_blank, is_whitespace, push_decimal, str_eq};

fn numeral(n: u128) -> String {
    let mut s = String::new();
    push_decimal(&mut s, n);
    s
}

#[test]
fn decode_accepts_utf8_only() {
    assert_eq!(decode(b""), Some(String::new()));
    assert_eq!(decode(b"plain"), Some("plain".to_string()));
    assert_eq!(decode("gr\u{fc}\u{df}e \u{20ac} \u{1f600}".as_bytes()), Some("gr\u{fc}\u{df}e \u{20ac} \u{1f600}".to_string()));
    assert_eq!(decode(&[0xff]), None);
    assert_eq!(decode(&[b'a', 0xc3]), None);
    assert_eq!(decode(&[0xc0, 0x80]), None);
    assert_eq!(decode(&[0xed, 0xa0, 0x80]), None);
    assert_eq!(decode(&[0xf4, 0x90, 0x80, 0x80]), None);
}

#[test]
fn whitespace_is_what_std_calls_whitespace() {
    for point in 0..=0x10ffffu32 {
        if let Some(c) = char::from_u32(point) {
            assert_eq!(is_whitespace(c), c.is_whitespace(), "U+{:04X}", point);
        }
    }
}

#[test]
fn blank_is_empty_after_trim() {
    let samples = [
        "",
        " ",
        "\t",
        " \t\r\n",
        "\u{a0}",
        "\u{85}\u{1680}\u{2003}\u{2028}\u{2029}\u{202f}\u{205f}\u{3000}",
        "a",
        " a ",
        "\u{200b}",
        "\u{180e}",
        "  .  ",
        "\u{3000}x",
    ];
    for text in samples {
        assert_eq!(is_blank(text), text.trim().is_empty(), "{:?}", text);
    }
    assert!(is_blank(" \t "));
    assert!(!is_blank(" x "));
}

#[test]
fn bytes_compare_by_content() {
    assert!(bytes_eq(b"", b""));
    assert!(bytes_eq(b"abc", b"abc"));
    assert!(!bytes_eq(b"abc", b"abd"));
    assert!(!bytes_eq(b"abc", b"ab"));
    assert!(!bytes_eq(b"", b"a"));
}

#[test]
fn strings_compare_by_content() {
    assert!(str_eq("", ""));
    assert!(str_eq("ctrl-n", "ctrl-n"));
    assert!(str_eq("\u{e9}", "\u{e9}"));
    assert!(!str_eq("ctrl-n", "ctrl-o"));
    assert!(!str_eq("md", "md "));
    assert!(!str_eq("e\u{301}", "\u{e9}"));
}

#[test]
fn decimal_numerals() {
    assert_eq!(numeral(0), "0");
    assert_eq!(numeral(7), "7");
    assert_eq!(numeral(9), "9");
    assert_eq!(numeral(10), "10");
    assert_eq!(numeral(11), "11");
    assert_eq!(numeral(100), "100");
    assert_eq!(numeral(1234567890), "1234567890");
    assert_eq!(numeral(u64::MAX as u128 + 1), "18446744073709551616");
    assert_eq!(numeral(u128::MAX), "340282366920938463463374607431768211455");
}

#[test]
fn decimal_is_appended() {
    let mut s = String::from("line ");
    push_decimal(&mut s, 42);
    push_decimal(&mut s, 0);
    assert_eq!(s, "line 420");
}
