use kamino::redaction::{mask_chars, redact_text, replace_chars};
use kamino::text::{
    chars_of, contains_chars, decimal, has_char, matches_at, number_of, parse_number, same_chars,
    signed_decimal, str_contains, str_equal, string_of,
};

fn replaced(text: &str, secret: &str, with: &str) -> String {
    string_of(&replace_chars(&chars_of(text), &chars_of(secret), &chars_of(with)))
}

fn secrets(parts: &[&str]) -> Vec<String> {
    parts.iter().map(|part| String::from(*part)).collect()
}

#[test]
fn strings_and_characters() {
    assert_eq!(chars_of("aé√"), vec!['a', 'é', '√']);
    assert_eq!(chars_of(""), Vec::<char>::new());
    assert_eq!(string_of(&vec!['a', 'é', '√']), "aé√");
    assert_eq!(string_of(&Vec::new()), "");
    assert!(str_equal("abc", "abc"));
    assert!(!str_equal("abc", "abd"));
    assert!(!str_equal("abc", "ab"));
    assert!(same_chars(&Vec::new(), &Vec::new()));
    assert!(has_char(&chars_of("a:b"), ':'));
    assert!(!has_char(&chars_of("ab"), ':'));
}

#[test]
fn substrings_are_found() {
    assert!(str_contains("pool-vmss000000", "pool-vmss"));
    assert!(str_contains("k8s-pool-vmss000000", "pool-vmss"));
    assert!(str_contains("abc", "c"));
    assert!(str_contains("abc", ""));
    assert!(str_contains("", ""));
    assert!(!str_contains("", "a"));
    assert!(!str_contains("ab", "abc"));
    assert!(!str_contains("aab", "aba"));
    assert!(str_contains("aaab", "aab"));
    assert!(contains_chars(&chars_of("héllo"), &chars_of("éll")));
    assert!(matches_at(&chars_of("hello"), &chars_of("llo"), 2));
    assert!(!matches_at(&chars_of("hello"), &chars_of("llo"), 3));
    assert!(!matches_at(&chars_of("hello"), &chars_of("llo"), 9));
    assert!(matches_at(&chars_of("hello"), &chars_of(""), 5));
    assert!(!matches_at(&chars_of("hello"), &chars_of(""), 6));
}

#[test]
fn numbers_are_read() {
    assert_eq!(parse_number("0"), Some(0));
    assert_eq!(parse_number("42"), Some(42));
    assert_eq!(parse_number("+42"), Some(42));
    assert_eq!(parse_number("0042"), Some(42));
    assert_eq!(parse_number("4294967295"), Some(u32::MAX));
    assert_eq!(parse_number("4294967296"), None);
    assert_eq!(parse_number("99999999999999999999999"), None);
    assert_eq!(parse_number(""), None);
    assert_eq!(parse_number("+"), None);
    assert_eq!(parse_number("-"), None);
    assert_eq!(parse_number("-0"), None);
    assert_eq!(parse_number("++1"), None);
    assert_eq!(parse_number("1+"), None);
    assert_eq!(parse_number(" 1"), None);
    assert_eq!(parse_number("1 "), None);
    assert_eq!(parse_number("٣"), None);
    assert_eq!(number_of(&vec!['7', '1']), Some(71));
    for text in ["0", "7", "+7", "0042", "4294967295", "4294967296", "", "+", "-1", "1e3", "٣"] {
        assert_eq!(parse_number(text), text.parse::<u32>().ok(), "{:?}", text);
    }
}

#[test]
fn numbers_are_written() {
    assert_eq!(decimal(0), "0");
    assert_eq!(decimal(9), "9");
    assert_eq!(decimal(10), "10");
    assert_eq!(decimal(1234567890), "1234567890");
    assert_eq!(decimal(u64::MAX), "18446744073709551615");
    assert_eq!(signed_decimal(0), "0");
    assert_eq!(signed_decimal(-1), "-1");
    assert_eq!(signed_decimal(-100), "-100");
    assert_eq!(signed_decimal(i64::MAX), "9223372036854775807");
    assert_eq!(signed_decimal(i64::MIN), "-9223372036854775808");
}

#[test]
fn occurrences_are_replaced_from_the_left() {
    assert_eq!(replaced("a secret here", "secret", "*****"), "a ***** here");
    assert_eq!(replaced("secretsecret", "secret", "*****"), "**********");
    assert_eq!(replaced("nothing", "secret", "*****"), "nothing");
    assert_eq!(replaced("", "secret", "*****"), "");
    assert_eq!(replaced("aaa", "aa", "*****"), "*****a");
    assert_eq!(replaced("aaaa", "aa", "*****"), "**********");
    assert_eq!(replaced("ababa", "aba", "-"), "-ba");
    assert_eq!(replaced("secre", "secret", "*****"), "secre");
    assert_eq!(replaced("xsecret", "secret", ""), "x");
    assert_eq!(replaced("héllo", "é", "e"), "hello");
}

#[test]
fn the_empty_secret_stands_before_each_character_and_at_the_end() {
    assert_eq!(replaced("abc", "", "-"), "-a-b-c-");
    assert_eq!(replaced("", "", "-"), "-");
    assert_eq!(replaced("ab", "", "*****"), "*****a*****b*****");
}

#[test]
fn replacing_agrees_with_std() {
    let texts = ["", "a", "aaa", "abcabc", "secret and secret", "ababab", "héllo wörld"];
    let found = ["", "a", "aa", "ab", "abc", "secret", "b", "ö", "zzz"];
    for text in texts {
        for secret in found {
            assert_eq!(
                replaced(text, secret, "*****"),
                text.replace(secret, "*****"),
                "{:?} {:?}",
                text,
                secret
            );
        }
    }
}

#[test]
fn secrets_are_masked_one_after_the_other() {
    assert_eq!(string_of(&mask_chars()), "*****");
    assert_eq!(redact_text("user admin password hunter2", &secrets(&[])), "user admin password hunter2");
    assert_eq!(
        redact_text("user admin password hunter2", &secrets(&["admin", "hunter2"])),
        "user ***** password *****"
    );
    assert_eq!(redact_text("abcd", &secrets(&["bc", "ad"])), "a*****d");
    assert_eq!(redact_text("abcd", &secrets(&["bc", "a*"])), "*********d");
    assert_eq!(redact_text("hunter2", &secrets(&["hunter2", "hunter2"])), "*****");
}

#[test]
fn a_redacted_text_holds_no_secret_without_an_asterisk() {
    let texts = ["", "abcabc", "a-b-c", "xyzzy and plugh", "aaaaaa", "ab*ab"];
    let sets = [
        secrets(&["a"]),
        secrets(&["ab", "bc"]),
        secrets(&["bc", "ab", "c"]),
        secrets(&["xyzzy", "plugh", " "]),
        secrets(&["aa", "aaa", "", "a"]),
        secrets(&["b", "*", "a"]),
    ];
    for text in texts {
        for set in &sets {
            let redacted = redact_text(text, set);
            for secret in set {
                if !secret.is_empty() && !secret.contains('*') {
                    assert!(!redacted.contains(secret.as_str()), "{:?} {:?}", text, set);
                }
            }
        }
    }
}

#[test]
fn a_secret_of_asterisks_is_still_shown() {
    // the mask itself is made of asterisks
    assert!(redact_text("a*b", &secrets(&["*"])).contains('*'));
    assert_eq!(redact_text("a*b", &secrets(&["*"])), "a*****b");
}
