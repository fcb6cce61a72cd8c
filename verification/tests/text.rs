use fileserve::strings::{bytes_of, string_of, to_uppercase};
use fileserve::text::{
    char_is_whitespace, chars_of, count_leading, count_trailing, find, matches_at, parse_usize,
    push_decimal, replace_all, rfind_char, rsplit_once_char, split_once, starts_with, strip,
    strip_leading, strip_leading_copies, strip_prefix, strip_suffix, trim, CharClass,
};

fn chars(s: &str) -> Vec<char> {
    s.chars().collect()
}

fn text(c: &[char]) -> String {
    c.iter().collect()
}

#[test]
fn white_space_is_what_the_standard_library_calls_white_space() {
    let mut code: u32 = 0;
    while code <= 0x10FFFF {
        if let Some(c) = char::from_u32(code) {
            assert_eq!(char_is_whitespace(c), c.is_whitespace(), "U+{:04X}", code);
        }
        code += 1;
    }
}

#[test]
fn chars_and_back() {
    assert_eq!(chars_of("a\u{e9}\u{1F600}z"), chars("a\u{e9}\u{1F600}z"));
    assert_eq!(chars_of(""), Vec::<char>::new());
    assert_eq!(string_of(&chars("a\u{e9}\u{1F600}z")), "a\u{e9}\u{1F600}z");
    assert_eq!(string_of(&[]), "");
}

#[test]
fn bytes_are_utf8() {
    assert_eq!(bytes_of(&chars("a\u{e9}")), vec![0x61, 0xC3, 0xA9]);
    assert_eq!(bytes_of(&chars("\u{1F600}")), vec![0xF0, 0x9F, 0x98, 0x80]);
}

#[test]
fn uppercase_of_ascii_and_beyond() {
    assert_eq!(text(&to_uppercase(&chars("get /x-1"))), "GET /X-1");
    assert_eq!(text(&to_uppercase(&chars("stra\u{df}e"))), "STRASSE");
    assert_eq!(text(&to_uppercase(&chars("\u{e9}"))), "\u{c9}");
    assert_eq!(text(&to_uppercase(&chars("po\u{17f}t"))), "POST");
    let sample = "Hello, W\u{f6}rld! \u{149}\u{1f0} 123 \u{fb01}";
    assert_eq!(text(&to_uppercase(&chars(sample))), sample.to_uppercase());
}

#[test]
fn runs_at_both_ends() {
    assert_eq!(count_leading(&chars("  \t x "), CharClass::Space), 4);
    assert_eq!(count_trailing(&chars("  \t x \r\n"), CharClass::Space), 3);
    assert_eq!(count_leading(&chars("abc def"), CharClass::Solid), 3);
    assert_eq!(count_leading(&chars("///a/"), CharClass::Just('/')), 3);
    assert_eq!(count_trailing(&chars("///a/"), CharClass::Just('/')), 1);
    assert_eq!(count_leading(&chars("   "), CharClass::Space), 3);
    assert_eq!(count_trailing(&chars("   "), CharClass::Space), 3);
    assert_eq!(count_leading(&[], CharClass::Space), 0);
}

#[test]
fn trimming() {
    assert_eq!(text(trim(&chars("  a b \r\n"))), "a b");
    assert_eq!(text(trim(&chars("\u{a0}\u{3000}x\u{2003}"))), "x");
    assert_eq!(text(trim(&chars("   "))), "");
    assert_eq!(text(trim(&chars(""))), "");
    assert_eq!(text(strip(&chars("\"\"a\"b\"\""), CharClass::Just('"'))), "a\"b");
    assert_eq!(text(strip_leading(&chars("//a/"), CharClass::Just('/'))), "a/");
}

#[test]
fn searching() {
    assert_eq!(find(&chars("abcabc"), &chars("bc")), Some(1));
    assert_eq!(find(&chars("abcabc"), &chars("cb")), None);
    assert_eq!(find(&chars("abc"), &chars("")), Some(0));
    assert_eq!(find(&chars(""), &chars("")), Some(0));
    assert_eq!(find(&chars("ab"), &chars("abc")), None);
    assert_eq!(find(&chars("aab"), &chars("ab")), Some(1));
    assert_eq!(rfind_char(&chars("a;b;c"), ';'), Some(3));
    assert_eq!(rfind_char(&chars("abc"), ';'), None);
    assert!(matches_at(&chars("abc"), &chars("bc"), 1));
    assert!(!matches_at(&chars("abc"), &chars("bc"), 2));
    assert!(!matches_at(&chars("abc"), &chars("bc"), 7));
    assert!(starts_with(&chars("abc"), &chars("ab")));
    assert!(!starts_with(&chars("abc"), &chars("bc")));
}

#[test]
fn splitting() {
    let s = chars("k: v: w");
    let (a, b) = split_once(&s, &chars(": ")).unwrap();
    assert_eq!((text(a), text(b)), ("k".to_string(), "v: w".to_string()));
    assert!(split_once(&s, &chars(";")).is_none());
    let (a, b) = rsplit_once_char(&s, ':').unwrap();
    assert_eq!((text(a), text(b)), ("k: v".to_string(), " w".to_string()));
    assert!(rsplit_once_char(&s, ';').is_none());
}

#[test]
fn prefixes_and_suffixes() {
    let s = chars("--b body --b--");
    assert_eq!(text(strip_prefix(&s, &chars("--b")).unwrap()), " body --b--");
    assert!(strip_prefix(&s, &chars("--c")).is_none());
    assert_eq!(text(strip_suffix(&s, &chars("--b--")).unwrap()), "--b body ");
    assert!(strip_suffix(&s, &chars("--b")).is_none());
    assert!(strip_suffix(&chars("b"), &chars("--b--")).is_none());
    assert_eq!(text(strip_leading_copies(&chars("ababxab"), &chars("ab"))), "xab");
    assert_eq!(text(strip_leading_copies(&chars("abab"), &chars(""))), "abab");
}

#[test]
fn replacing() {
    let out = replace_all(&chars("a{{X}}b{{X}}"), &chars("{{X}}"), &chars("12"));
    assert_eq!(text(&out), "a12b12");
    let out = replace_all(&chars("aaa"), &chars("aa"), &chars("b"));
    assert_eq!(text(&out), "ba");
    let out = replace_all(&chars("abc"), &chars("x"), &chars("y"));
    assert_eq!(text(&out), "abc");
    let out = replace_all(&chars("abc"), &chars(""), &chars("y"));
    assert_eq!(text(&out), "abc");
}

#[test]
fn numbers() {
    assert_eq!(parse_usize(&chars("0")), Some(0));
    assert_eq!(parse_usize(&chars("5")), Some(5));
    assert_eq!(parse_usize(&chars("+5")), Some(5));
    assert_eq!(parse_usize(&chars("007")), Some(7));
    assert_eq!(parse_usize(&chars("52428800")), Some(52428800));
    assert_eq!(parse_usize(&chars("")), None);
    assert_eq!(parse_usize(&chars("+")), None);
    assert_eq!(parse_usize(&chars("-1")), None);
    assert_eq!(parse_usize(&chars("++1")), None);
    assert_eq!(parse_usize(&chars(" 1")), None);
    assert_eq!(parse_usize(&chars("1 ")), None);
    assert_eq!(parse_usize(&chars("12a")), None);
    assert_eq!(parse_usize(&chars("\u{661}")), None);
    assert_eq!(parse_usize(&chars(&usize::MAX.to_string())), Some(usize::MAX));
    assert_eq!(parse_usize(&chars("99999999999999999999999999")), None);
    assert_eq!(parse_usize(&chars("18446744073709551616")), "18446744073709551616".parse().ok());
}

#[test]
fn numerals() {
    let mut out = chars("n=");
    push_decimal(0, &mut out);
    assert_eq!(text(&out), "n=0");
    let mut out = Vec::new();
    push_decimal(1234567890, &mut out);
    assert_eq!(text(&out), "1234567890");
    let mut out = Vec::new();
    push_decimal(u64::MAX, &mut out);
    assert_eq!(text(&out), u64::MAX.to_string());
}
