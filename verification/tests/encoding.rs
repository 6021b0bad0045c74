use pocket_calibre::encoding::{base64, urlencode};
use pocket_calibre::number::{parse_i64, parse_usize, push_decimal, push_signed};

#[test]
fn base64_matches_known_vectors() {
    assert_eq!(base64(b""), "");
    assert_eq!(base64(b"f"), "Zg==");
    assert_eq!(base64(b"fo"), "Zm8=");
    assert_eq!(base64(b"foo"), "Zm9v");
    assert_eq!(base64(b"foob"), "Zm9vYg==");
    assert_eq!(base64(b"fooba"), "Zm9vYmE=");
    assert_eq!(base64(b"foobar"), "Zm9vYmFy");
    assert_eq!(base64(b"user:pass"), "dXNlcjpwYXNz");
}

#[test]
fn base64_uses_the_whole_alphabet() {
    assert_eq!(base64(&[0xff, 0xff, 0xfe]), "///+");
    assert_eq!(base64(&[0, 0, 0]), "AAAA");
    assert_eq!(base64(&[0xfb, 0xef, 0xbe]), "++++");
    assert_eq!(base64(&[0xd3, 0x5d, 0xb7, 0xe3, 0x9e, 0xbb, 0xf3]), "012345678w==");
}

#[test]
fn base64_length_grows_by_groups() {
    for n in 0..20usize {
        let text = base64(&vec![7u8; n]);
        assert_eq!(text.len(), (n + 2) / 3 * 4);
    }
}

#[test]
fn urlencode_escapes_non_alphanumerics() {
    assert_eq!(urlencode("Calibre_Library"), "Calibre_Library");
    assert_eq!(urlencode("my lib"), "my%20lib");
    assert_eq!(urlencode("книги"), "%D0%BA%D0%BD%D0%B8%D0%B3%D0%B8");
}

#[test]
fn urlencode_keeps_what_is_safe_and_escapes_the_percent_sign() {
    assert_eq!(urlencode("AZaz09-_.~"), "AZaz09-_.~");
    assert_eq!(urlencode("100%"), "100%25");
    assert_eq!(urlencode("a/b?c&d=e"), "a%2Fb%3Fc%26d%3De");
    assert_eq!(urlencode(""), "");
}

#[test]
fn numbers_are_written_in_decimal() {
    let mut s = String::from("n=");
    push_decimal(&mut s, 0);
    push_decimal(&mut s, 907);
    assert_eq!(s, "n=0907");
    let mut max = String::new();
    push_decimal(&mut max, u64::MAX);
    assert_eq!(max, "18446744073709551615");
    let mut low = String::new();
    push_signed(&mut low, i64::MIN);
    assert_eq!(low, "-9223372036854775808");
    let mut one = String::new();
    push_signed(&mut one, -1);
    assert_eq!(one, "-1");
}

#[test]
fn numbers_read_back_from_decimal() {
    for n in [i64::MIN, -1, 0, 1, 42, i64::MAX] {
        let mut s = String::new();
        push_signed(&mut s, n);
        assert_eq!(parse_i64(&s), Some(n));
    }
    assert_eq!(parse_i64("+7"), Some(7));
    assert_eq!(parse_i64("-"), None);
    assert_eq!(parse_i64(""), None);
    assert_eq!(parse_i64("12a"), None);
    assert_eq!(parse_i64("9223372036854775808"), None);
    assert_eq!(parse_i64("-9223372036854775808"), Some(i64::MIN));
    assert_eq!(parse_usize("0042"), Some(42));
    assert_eq!(parse_usize("+5"), Some(5));
    assert_eq!(parse_usize("-5"), None);
    assert_eq!(parse_usize("99999999999999999999999"), None);
}
