use zsp::builtins::{string_at, string_replace, string_split, string_substr, string_to_lower};

#[test]
fn substr_clamps() {
    assert_eq!(string_substr("hello", 1, 3), "el");
    assert_eq!(string_substr("hello", 2, 99), "llo");
    assert_eq!(string_substr("hello", 4, 2), "");
}

#[test]
fn at_picks_a_character() {
    assert_eq!(string_at("héllo", 1), "é");
    assert_eq!(string_at("x", 0), "x");
}

#[test]
fn split_on_first_separator_character() {
    assert_eq!(string_split("a,b,,c", ","), vec!["a", "b", "", "c"]);
    assert_eq!(string_split("", ","), vec![""]);
    assert_eq!(string_split("abc;", ";x"), vec!["abc", ""]);
}

#[test]
fn replace_all_matches() {
    assert_eq!(string_replace("aXbXc", "X", "--"), "a--b--c");
    assert_eq!(string_replace("aaa", "aa", "b"), "ba");
    assert_eq!(string_replace("abc", "", "-"), "-a-b-c-");
    assert_eq!(string_replace("abc", "z", "-"), "abc");
}

#[test]
fn lowercase() {
    assert_eq!(string_to_lower("HeLLo World"), "hello world");
    assert_eq!(string_to_lower("ÀB"), "àb");
}
