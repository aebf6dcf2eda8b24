use holligerme::text::{
    bytes_of, dec_string, nth_field_chars, parse_usize_chars, push_escaped, push_hex,
    push_quotes_escaped, split_all_chars, split_lines, split_once_chars, str_ends_with,
    str_starts_with,
};

fn chars(s: &str) -> Vec<char> {
    s.chars().collect()
}

fn text(v: &[char]) -> String {
    v.iter().collect()
}

#[test]
fn escaping_replaces_markup_characters() {
    let mut out = Vec::new();
    push_escaped(&mut out, &chars("<a href=\"x\">Tom & Jerry's</a>"));
    assert_eq!(text(&out), "&lt;a href=&quot;x&quot;&gt;Tom &amp; Jerry's&lt;/a&gt;");
}

#[test]
fn escaping_leaves_plain_text_alone() {
    let mut out = chars("keep: ");
    push_escaped(&mut out, &chars("Hello 👋 I'm Lukas"));
    assert_eq!(text(&out), "keep: Hello 👋 I'm Lukas");
}

#[test]
fn escaped_text_has_no_markup_characters() {
    let mut out = Vec::new();
    push_escaped(&mut out, &chars("\"<>&<<>>\"\""));
    assert!(!out.contains(&'<') && !out.contains(&'>') && !out.contains(&'"'));
}

#[test]
fn quotes_get_a_backslash() {
    let mut out = Vec::new();
    push_quotes_escaped(&mut out, &chars("say \"hi\""));
    assert_eq!(text(&out), "say \\\"hi\\\"");
}

#[test]
fn decimal_and_hexadecimal_numbers() {
    assert_eq!(dec_string(0), "0");
    assert_eq!(dec_string(1234567890), "1234567890");
    assert_eq!(dec_string(u64::MAX), u64::MAX.to_string());
    let mut out = Vec::new();
    push_hex(&mut out, 0xdeadbeef);
    assert_eq!(text(&out), "deadbeef");
    let mut zero = Vec::new();
    push_hex(&mut zero, 0);
    assert_eq!(text(&zero), "0");
}

#[test]
fn numbers_read_like_str_parse() {
    assert_eq!(parse_usize_chars(&chars("123")), Some(123));
    assert_eq!(parse_usize_chars(&chars("+7")), Some(7));
    assert_eq!(parse_usize_chars(&chars("")), None);
    assert_eq!(parse_usize_chars(&chars("+")), None);
    assert_eq!(parse_usize_chars(&chars("12a")), None);
    assert_eq!(parse_usize_chars(&chars("-1")), None);
    assert_eq!(parse_usize_chars(&chars("99999999999999999999999")), None);
}

#[test]
fn lines_split_like_str_lines() {
    let lines = split_lines(&chars("a\nb\r\n\nc\n"));
    let got: Vec<String> = lines.iter().map(|l| text(l)).collect();
    let want: Vec<String> = "a\nb\r\n\nc\n".lines().map(|l| l.to_string()).collect();
    assert_eq!(got, want);
    assert!(split_lines(&chars("")).is_empty());
}

#[test]
fn fields_split_like_str_split() {
    let fields = split_all_chars(&chars("a,,b,"), ',');
    let got: Vec<String> = fields.iter().map(|l| text(l)).collect();
    assert_eq!(got, vec!["a", "", "b", ""]);
    assert_eq!(nth_field_chars(&chars("x y z w"), ' ', 3).map(|v| text(&v)), Some("w".to_string()));
    assert_eq!(nth_field_chars(&chars("x y"), ' ', 3), None);
    let (a, b) = split_once_chars(&chars("k=v=w"), '=').unwrap();
    assert_eq!((text(&a), text(&b)), ("k".to_string(), "v=w".to_string()));
    assert!(split_once_chars(&chars("kv"), '=').is_none());
}

#[test]
fn prefixes_suffixes_and_bytes() {
    assert!(str_starts_with("http://x", "http"));
    assert!(!str_starts_with("htt", "http"));
    assert!(str_ends_with("a.webp", "webp"));
    assert!(!str_ends_with("a.png", "webp"));
    assert_eq!(bytes_of("é!"), vec![0xc3, 0xa9, b'!']);
}
