use pronoun_engine::case::{lowercase, uppercase, uppercase_char};
use pronoun_engine::text::{
    append, chars_of, find, is_word, occurs, remove_all, replace_all, same_text, slice_of, split,
    string_of, trim, whitespace,
};
use regex::Regex;

fn chars(s: &str) -> Vec<char> {
    s.chars().collect()
}

fn text(v: &Vec<char>) -> String {
    v.iter().collect()
}

#[test]
fn strings_become_characters_and_back() {
    assert_eq!(chars_of("héllo"), vec!['h', 'é', 'l', 'l', 'o']);
    assert_eq!(chars_of(""), Vec::<char>::new());
    assert_eq!(string_of(&vec!['a', '\u{200B}', 'ß']), "a\u{200B}ß");
    assert_eq!(string_of(&vec![]), "");
}

#[test]
fn whitespace_is_what_the_standard_library_says() {
    let mut code: u32 = 0;
    while code <= 0x10FFFF {
        if let Some(c) = char::from_u32(code) {
            assert_eq!(whitespace(c), c.is_whitespace(), "U+{:04X}", code);
        }
        code += 1;
    }
    assert!(!whitespace('\u{200B}'));
}

#[test]
fn whitespace_is_what_the_pattern_engine_says() {
    let space = Regex::new(r"^\s$").unwrap();
    let mut code: u32 = 0;
    let mut buffer = [0u8; 4];
    while code <= 0x3100 {
        if let Some(c) = char::from_u32(code) {
            assert_eq!(whitespace(c), space.is_match(c.encode_utf8(&mut buffer)), "U+{:04X}", code);
        }
        code += 1;
    }
}

#[test]
fn trim_takes_white_space_off_both_ends() {
    assert_eq!(text(&trim(&chars("  a b \n"))), "a b");
    assert_eq!(text(&trim(&chars("a"))), "a");
    assert_eq!(text(&trim(&chars(""))), "");
    assert_eq!(text(&trim(&chars(" \t\n"))), "");
    assert_eq!(text(&trim(&chars("\u{3000}x\u{A0}"))), "x");
    assert_eq!(text(&trim(&chars("\u{200B}x\u{200B}"))), "\u{200B}x\u{200B}");
    for s in ["  à b  ", "\r\n", "x ", " x", "\u{85}\u{1680}y\u{2028}\u{2029}\u{202F}\u{205F}"] {
        assert_eq!(text(&trim(&chars(s))), s.trim());
    }
}

#[test]
fn slices_and_appends() {
    assert_eq!(text(&slice_of(&chars("hello"), 1, 3)), "el");
    assert_eq!(text(&slice_of(&chars("hello"), 0, 5)), "hello");
    assert_eq!(text(&slice_of(&chars("hello"), 5, 5)), "");
    let mut s = chars("ab");
    append(&mut s, &chars("cd"));
    assert_eq!(text(&s), "abcd");
    append(&mut s, &chars(""));
    assert_eq!(text(&s), "abcd");
}

#[test]
fn texts_are_compared_by_their_characters() {
    assert!(same_text(&chars("abc"), &chars("abc")));
    assert!(!same_text(&chars("abc"), &chars("abd")));
    assert!(!same_text(&chars("abc"), &chars("ab")));
    assert!(same_text(&chars(""), &chars("")));
    assert!(is_word(&chars("they"), "they"));
    assert!(!is_word(&chars("They"), "they"));
    assert!(!is_word(&chars("the"), "they"));
}

#[test]
fn find_gives_the_first_position_or_the_length() {
    assert_eq!(find(&chars("a:b:c"), ':', 0), 1);
    assert_eq!(find(&chars("a:b:c"), ':', 1), 1);
    assert_eq!(find(&chars("a:b:c"), ':', 2), 3);
    assert_eq!(find(&chars("a:b:c"), ':', 4), 5);
    assert_eq!(find(&chars("abc"), ':', 0), 3);
    assert_eq!(find(&chars(""), ':', 0), 0);
    assert_eq!(find(&chars("a:b"), ':', 7), 7);
}

#[test]
fn split_keeps_empty_pieces() {
    let pieces = |s: &str| -> Vec<String> { split(&chars(s), '/').iter().map(text).collect() };
    assert_eq!(pieces("a/b/c"), vec!["a", "b", "c"]);
    assert_eq!(pieces("abc"), vec!["abc"]);
    assert_eq!(pieces(""), vec![""]);
    assert_eq!(pieces("/"), vec!["", ""]);
    assert_eq!(pieces("a//b"), vec!["a", "", "b"]);
    assert_eq!(pieces("/a/b/"), vec!["", "a", "b", ""]);
    for s in ["x/y", "//", "a/", "/a", "é/ü/"] {
        let expected: Vec<String> = s.split('/').map(|p| p.to_string()).collect();
        assert_eq!(pieces(s), expected);
    }
}

#[test]
fn occurrences() {
    assert!(occurs(&chars("hello"), &chars("ell"), 1));
    assert!(!occurs(&chars("hello"), &chars("ell"), 0));
    assert!(!occurs(&chars("hello"), &chars("lo!"), 3));
    assert!(occurs(&chars("hello"), &chars(""), 5));
    assert!(occurs(&chars("hello"), &chars("hello"), 0));
    assert!(!occurs(&chars("hello"), &chars(""), 6));
}

#[test]
fn replace_all_replaces_from_left_to_right() {
    let replace = |s: &str, pat: &str, rep: &str| text(&replace_all(&chars(s), &chars(pat), &chars(rep)));
    assert_eq!(replace("a[x]b[x]", "[x]", "he"), "aheb" .to_string() + "he");
    assert_eq!(replace("aaa", "aa", "b"), "ba");
    assert_eq!(replace("aab", "ab", "b"), "ab");
    assert_eq!(replace("abc", "x", "y"), "abc");
    assert_eq!(replace("abc", "abc", ""), "");
    assert_eq!(replace("", "a", "b"), "");
    assert_eq!(replace("abc", "", "-"), "abc");
    for (s, pat, rep) in [("xyxyx", "xy", "z"), ("ééé", "é", "ee"), ("abab", "ab", "abab")] {
        assert_eq!(replace(s, pat, rep), s.replace(pat, rep));
    }
}

#[test]
fn remove_all_takes_every_occurrence_out() {
    assert_eq!(text(&remove_all(&chars("\u{200B}a\u{200B}\u{200B}b\u{200B}"), '\u{200B}')), "ab");
    assert_eq!(text(&remove_all(&chars("abc"), 'x')), "abc");
    assert_eq!(text(&remove_all(&chars("xxx"), 'x')), "");
    assert_eq!(text(&remove_all(&chars(""), 'x')), "");
}

#[test]
fn case_follows_the_standard_library() {
    assert_eq!(text(&lowercase(&chars("HeLLo ÉCOLE"))), "hello école");
    assert_eq!(text(&uppercase(&chars("straße"))), "STRASSE");
    assert_eq!(text(&uppercase_char('ß')), "SS");
    assert_eq!(text(&uppercase_char('a')), "A");
    assert_eq!(text(&uppercase_char('1')), "1");
    assert_eq!(text(&lowercase(&chars("ΌΣΟΣ"))), "όσος");
    assert_eq!(text(&lowercase(&chars(""))), "");
}
