use jnlp_filter::cookies::{parse_cookies, CookieMap};

fn value(map: &CookieMap, name: &str) -> Option<String> {
    map.get(name).cloned()
}

#[test]
fn cookies_are_split_and_trimmed() {
    let map = parse_cookies("a=1; b=2;c=3");
    assert_eq!(value(&map, "a"), Some("1".to_string()));
    assert_eq!(value(&map, "b"), Some("2".to_string()));
    assert_eq!(value(&map, "c"), Some("3".to_string()));
    assert_eq!(value(&map, "d"), None);
}

#[test]
fn whitespace_around_separators_is_ignored() {
    let plain = parse_cookies("CF_Authorization=tok;theme=dark");
    let padded = parse_cookies("  CF_Authorization \t=  tok\u{00A0} ;\n theme =\tdark  ");
    for name in ["CF_Authorization", "theme", "other"] {
        assert_eq!(value(&plain, name), value(&padded, name));
    }
    assert_eq!(value(&padded, "CF_Authorization"), Some("tok".to_string()));
    assert_eq!(value(&padded, "theme"), Some("dark".to_string()));
}

#[test]
fn value_is_cut_at_the_first_equals_sign() {
    let map = parse_cookies("k=a=b=c; e==");
    assert_eq!(value(&map, "k"), Some("a=b=c".to_string()));
    assert_eq!(value(&map, "e"), Some("=".to_string()));
}

#[test]
fn inner_whitespace_is_kept() {
    let map = parse_cookies(" my key = my value ");
    assert_eq!(value(&map, "my key"), Some("my value".to_string()));
}

#[test]
fn segments_without_equals_sign_are_dropped() {
    let map = parse_cookies("flag; a=1; ; other;b=2;");
    assert_eq!(value(&map, "flag"), None);
    assert_eq!(value(&map, "other"), None);
    assert_eq!(value(&map, ""), None);
    assert_eq!(value(&map, "a"), Some("1".to_string()));
    assert_eq!(value(&map, "b"), Some("2".to_string()));
}

#[test]
fn first_occurrence_of_a_name_wins() {
    let map = parse_cookies("a=first; b=x; a=second; a =third");
    assert_eq!(value(&map, "a"), Some("first".to_string()));
    assert_eq!(value(&map, "b"), Some("x".to_string()));
}

#[test]
fn empty_names_and_values_are_cookies() {
    let map = parse_cookies("=v; k=");
    assert_eq!(value(&map, ""), Some("v".to_string()));
    assert_eq!(value(&map, "k"), Some("".to_string()));
}

#[test]
fn empty_header_has_no_cookies() {
    let map = parse_cookies("");
    assert_eq!(value(&map, ""), None);
    assert_eq!(value(&map, "CF_Authorization"), None);
    let only_separators = parse_cookies(";;;");
    assert_eq!(value(&only_separators, ""), None);
}

#[test]
fn names_are_case_sensitive() {
    let map = parse_cookies("cf_authorization=lower");
    assert_eq!(value(&map, "CF_Authorization"), None);
    assert_eq!(value(&map, "cf_authorization"), Some("lower".to_string()));
}

#[test]
fn insert_first_keeps_the_earlier_value() {
    let mut map = CookieMap::new();
    assert_eq!(value(&map, "a"), None);
    map.insert_first("a".to_string(), "1".to_string());
    map.insert_first("b".to_string(), "2".to_string());
    map.insert_first("a".to_string(), "3".to_string());
    assert_eq!(value(&map, "a"), Some("1".to_string()));
    assert_eq!(value(&map, "b"), Some("2".to_string()));
}
