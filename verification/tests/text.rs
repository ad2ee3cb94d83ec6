use ccpark::text::{
    basename, contains_text, find_text, is_white_space, same_text, trim_text, without_char,
};

#[test]
fn white_space_is_that_of_unicode() {
    for c in '\0'..=char::MAX {
        assert_eq!(is_white_space(c), c.is_whitespace(), "{c:?}");
    }
}

#[test]
fn texts_are_trimmed() {
    for text in ["", " ", " a b ", "\t\r\nttys003\n", "\u{3000}x\u{85}", "plain", "\u{200b}"] {
        assert_eq!(trim_text(text), text.trim());
    }
}

#[test]
fn texts_are_searched() {
    for (hay, needle) in
        [("", ""), ("a", ""), ("", "a"), ("abcabc", "ca"), ("aab", "ab"), ("aaa", "b"), ("é.app", ".app")]
    {
        assert_eq!(contains_text(hay, needle), hay.contains(needle), "{hay:?} {needle:?}");
    }
    assert_eq!(find_text("é.app.app", ".app"), Some(1));
    assert_eq!(find_text("ab", "abc"), None);
}

#[test]
fn texts_are_compared() {
    assert!(same_text("", ""));
    assert!(same_text("Größe", "Größe"));
    assert!(!same_text("a", "ab"));
    assert!(!same_text("a", "b"));
}

#[test]
fn characters_are_dropped() {
    assert_eq!(without_char("a\"b\"\"c", '"'), "abc");
    assert_eq!(without_char("abc", '"'), "abc");
    assert_eq!(without_char("\"\"", '"'), "");
}

#[test]
fn last_component_of_a_path() {
    assert_eq!(basename("/Users/x/my-project"), "my-project");
    assert_eq!(basename("/Users/x/my-project//"), "my-project");
    assert_eq!(basename("my-project"), "my-project");
    assert_eq!(basename("/Users/x/my-project/./"), "my-project");
    assert_eq!(basename("/Users/x/.."), "..");
    assert_eq!(basename("."), ".");
    assert_eq!(basename("/"), "");
    assert_eq!(basename(""), "");
}
