use solc_bytecode::text::{
    chars_of, contains_chars, replace_chars, split_once_chars, string_from_chars,
    strip_prefix_chars, sub_chars,
};

fn v(s: &str) -> Vec<char> {
    s.chars().collect()
}

#[test]
fn replace_is_left_to_right_without_overlap() {
    assert_eq!(replace_chars(&v("aaa"), &v("aa"), &v("x")), v("xa"));
    assert_eq!(replace_chars(&v("abcabc"), &v("bc"), &v("")), v("aa"));
    assert_eq!(replace_chars(&v("ab"), &v("abc"), &v("x")), v("ab"));
    assert_eq!(replace_chars(&v(""), &v("a"), &v("x")), v(""));
    assert_eq!(replace_chars(&v("a-a"), &v("a"), &v("bb")), v("bb-bb"));
}

#[test]
fn contains_finds_substrings() {
    assert!(contains_chars(&v("hello"), &v("ll")));
    assert!(contains_chars(&v("hello"), &v("")));
    assert!(contains_chars(&v(""), &v("")));
    assert!(!contains_chars(&v("hello"), &v("lo!")));
    assert!(!contains_chars(&v("he"), &v("hello")));
}

#[test]
fn split_once_at_first() {
    assert_eq!(split_once_chars(&v("a:b:c"), ':'), Some((v("a"), v("b:c"))));
    assert_eq!(split_once_chars(&v(":"), ':'), Some((v(""), v(""))));
    assert_eq!(split_once_chars(&v("abc"), ':'), None);
}

#[test]
fn strip_prefix_only_at_start() {
    assert_eq!(strip_prefix_chars(&v("0x12"), &v("0x")), Some(v("12")));
    assert_eq!(strip_prefix_chars(&v("120x"), &v("0x")), None);
    assert_eq!(strip_prefix_chars(&v("0"), &v("0x")), None);
}

#[test]
fn chars_and_strings_round_trip() {
    let s = "a€😀";
    let cs = chars_of(s);
    assert_eq!(cs, vec!['a', '€', '😀']);
    assert_eq!(string_from_chars(&cs), s);
    assert_eq!(sub_chars(&cs, 1, 3), vec!['€', '😀']);
}
