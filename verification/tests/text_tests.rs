use jnlp_filter::text::{
    char_is_whitespace, find_char, push_chars, string_of, text_contains, text_occurs_at, to_chars,
    trim_range,
};

#[test]
fn whitespace_is_what_unicode_defines() {
    for code in 0u32..=0x10FFFF {
        if let Some(c) = char::from_u32(code) {
            assert_eq!(char_is_whitespace(c), c.is_whitespace(), "U+{:04X}", code);
        }
    }
}

#[test]
fn characters_are_listed_in_order() {
    assert_eq!(to_chars(""), Vec::<char>::new());
    assert_eq!(to_chars("aé\u{1F600}b"), vec!['a', 'é', '\u{1F600}', 'b']);
}

#[test]
fn trim_range_agrees_with_trim() {
    for text in ["", " ", "a", " a", "a ", "  a b  ", "\t\n x \r\n", "\u{3000}é\u{2003}", " \n "] {
        let chars = to_chars(text);
        let (from, to) = trim_range(&chars, 0, chars.len());
        assert_eq!(string_of(&chars, from, to), text.trim(), "text {:?}", text);
    }
    let chars = to_chars("ab  cd  ef");
    assert_eq!(trim_range(&chars, 2, 8), (4, 6));
    assert_eq!(trim_range(&chars, 2, 4), (4, 4));
    assert_eq!(trim_range(&chars, 3, 3), (3, 3));
}

#[test]
fn find_char_gives_the_first_position_or_the_end() {
    let chars = to_chars("a;b;c");
    assert_eq!(find_char(&chars, ';', 0, 5), 1);
    assert_eq!(find_char(&chars, ';', 2, 5), 3);
    assert_eq!(find_char(&chars, ';', 4, 5), 5);
    assert_eq!(find_char(&chars, ';', 0, 1), 1);
    assert_eq!(find_char(&chars, 'x', 0, 5), 5);
    assert_eq!(find_char(&chars, 'a', 5, 5), 5);
}

#[test]
fn occurrence_and_containment() {
    let hay = to_chars("<jnlp><param/></jnlp>");
    let needle = to_chars("<jnlp");
    assert!(text_occurs_at(&hay, &needle, 0));
    assert!(!text_occurs_at(&hay, &needle, 1));
    assert!(!text_occurs_at(&hay, &needle, 17));
    assert!(!text_occurs_at(&hay, &needle, usize::MAX));
    assert!(text_contains(&hay, &needle));
    assert!(text_contains(&hay, &to_chars("</jnlp>")));
    assert!(text_contains(&hay, &to_chars("")));
    assert!(text_contains(&to_chars(""), &to_chars("")));
    assert!(!text_contains(&hay, &to_chars("<jnlp>>")));
    assert!(!text_contains(&to_chars("ab"), &to_chars("abc")));
    assert!(text_contains(&hay, &hay));
}

#[test]
fn characters_are_appended_to_a_string() {
    let chars = to_chars("héllo");
    let mut s = String::from("> ");
    push_chars(&mut s, &chars, 1, 4);
    assert_eq!(s, "> éll");
    push_chars(&mut s, &chars, 2, 2);
    assert_eq!(s, "> éll");
    assert_eq!(string_of(&chars, 0, 5), "héllo");
}
