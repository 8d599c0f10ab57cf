use gust_core::strmap::StrMap;
use gust_core::text::{
    chars_lt, chars_of, contains_chars, eq_ignore_ascii_case, find_char, push_dec, push_dec_padded, split_once_char,
    string_of, to_lower, to_upper, trim,
};

fn s(v: Vec<char>) -> String {
    v.into_iter().collect()
}

#[test]
fn trim_and_case_helpers() {
    assert_eq!(s(trim(&chars_of("  a b \t"))), "a b");
    assert_eq!(s(trim(&chars_of("   "))), "");
    assert_eq!(s(to_upper(&chars_of("get-é"))), "GET-é");
    assert_eq!(s(to_lower(&chars_of("Error Rate"))), "error rate");
    assert!(eq_ignore_ascii_case(&chars_of("Authorization"), &chars_of("AUTHORIZATION")));
    assert!(!eq_ignore_ascii_case(&chars_of("Cookie"), &chars_of("Cookies")));
}

#[test]
fn split_and_search_helpers() {
    let (k, v) = split_once_char(&chars_of("X-Url: http://x/y"), ':').unwrap();
    assert_eq!(s(k), "X-Url");
    assert_eq!(s(v), " http://x/y");
    assert!(split_once_char(&chars_of("nocolon"), ':').is_none());
    assert_eq!(find_char(&chars_of("a=b=c"), '='), Some(1));
    assert!(contains_chars(&chars_of("p99 rose; throughput 76%"), &chars_of("throughput")));
    assert!(!contains_chars(&chars_of("thr"), &chars_of("throughput")));
    assert!(contains_chars(&chars_of("x"), &chars_of("")));
}

#[test]
fn ordering_matches_string_order() {
    for (a, b) in [("a", "b"), ("Zeta", "checkout"), ("item", "items"), ("", "a"), ("b", "a"), ("x", "x")] {
        assert_eq!(chars_lt(&chars_of(a), &chars_of(b)), a < b, "{a} < {b}");
    }
}

#[test]
fn decimal_rendering() {
    let mut out = String::from("n=");
    push_dec(&mut out, 0);
    push_dec(&mut out, 1234567890);
    assert_eq!(out, "n=01234567890");
    let mut p = String::new();
    push_dec_padded(&mut p, 7, 4);
    push_dec_padded(&mut p, 12345, 2);
    assert_eq!(p, "000712345");
    assert_eq!(string_of(&['o', 'k']), "ok");
}

#[test]
fn strmap_keeps_keys_sorted_and_unique() {
    let mut m = StrMap::new();
    assert!(m.is_empty());
    m.insert("theme".to_string(), "dark".to_string());
    m.insert("sid".to_string(), "abc".to_string());
    m.insert("sid".to_string(), "def".to_string());
    m.insert_if_absent("theme".to_string(), "light".to_string());
    m.insert_if_absent("a".to_string(), "1".to_string());
    assert_eq!(m.len(), 3);
    let keys: Vec<String> = (0..m.len()).map(|i| m.entry(i).0.clone()).collect();
    assert_eq!(keys, vec!["a", "sid", "theme"]);
    assert_eq!(m.get("sid").unwrap(), "def");
    assert_eq!(m.get("theme").unwrap(), "dark");
    assert!(m.contains_key("a"));
    assert!(m.get("missing").is_none());
    let copy = m.duplicate();
    assert_eq!(copy.get("sid").unwrap(), "def");
    assert_eq!(copy.len(), 3);
}
