use mdreplace::text::{contains, replace_all};

#[test]
fn replaces_a_single_occurrence() {
    assert_eq!(replace_all("Hello alpha world", "alpha", "beta"), "Hello beta world");
}

#[test]
fn replaces_every_occurrence_left_to_right() {
    assert_eq!(replace_all("aaaa", "aa", "b"), "bb");
    assert_eq!(replace_all("aaa", "aa", "b"), "ba");
    assert_eq!(replace_all("abcabc", "bc", ""), "aa");
    assert_eq!(replace_all("x.y.z", ".", "::"), "x::y::z");
}

#[test]
fn replacement_is_not_rescanned() {
    assert_eq!(replace_all("a", "a", "aa"), "aa");
    assert_eq!(replace_all("ab", "b", "ab"), "aab");
}

#[test]
fn text_without_the_pattern_is_unchanged() {
    assert_eq!(replace_all("plain text", "alpha", "beta"), "plain text");
    assert_eq!(replace_all("", "alpha", "beta"), "");
    assert_eq!(replace_all("alph", "alpha", "beta"), "alph");
}

#[test]
fn matching_is_case_sensitive() {
    assert_eq!(replace_all("Alpha alpha ALPHA", "alpha", "beta"), "Alpha beta ALPHA");
    assert!(!contains("Alpha", "alpha"));
}

#[test]
fn empty_pattern_stands_between_all_characters() {
    assert_eq!(replace_all("abc", "", "-"), "-a-b-c-");
    assert_eq!(replace_all("", "", "-"), "-");
    assert!(contains("abc", ""));
    assert!(contains("", ""));
}

#[test]
fn contains_finds_a_pattern_anywhere() {
    assert!(contains("Hello alpha world", "alpha"));
    assert!(contains("alpha", "alpha"));
    assert!(contains("xalpha", "alpha"));
    assert!(contains("alphax", "alpha"));
    assert!(!contains("alph", "alpha"));
    assert!(!contains("", "a"));
}

#[test]
fn works_on_characters_beyond_ascii() {
    assert_eq!(replace_all("naïve café", "é", "e"), "naïve cafe");
    assert_eq!(replace_all("日本語", "", "·"), "·日·本·語·");
    assert!(contains("日本語", "本"));
}

#[test]
fn agrees_with_the_standard_library() {
    let texts = ["", "a", "aa", "aaa", "abab", "ababa", "banana", "x\ny", "日本語本"];
    let pats = ["", "a", "aa", "ab", "aba", "ana", "\n", "本", "zz"];
    let news = ["", "b", "a", "aba", "本本"];
    for t in texts {
        for p in pats {
            assert_eq!(contains(t, p), t.contains(p));
            for n in news {
                assert_eq!(replace_all(t, p, n), t.replace(p, n));
            }
        }
    }
}

#[test]
fn there_and_back_restores_a_text_without_the_new_string() {
    for (text, a, b) in [
        ("Hello alpha world", "alpha", "beta"),
        ("xyxyx", "xy", "z"),
        ("abc", "", "-"),
        ("", "", "-"),
        ("aaa", "a", "zz"),
        ("yxy", "x", "yzy"),
    ] {
        assert_eq!(replace_all(&replace_all(text, a, b), b, a), text);
    }
}

#[test]
fn there_and_back_can_fail_where_the_new_string_meets_its_like() {
    assert_eq!(replace_all(&replace_all("b", "a", "b"), "b", "a"), "a");
    assert_eq!(replace_all(&replace_all("ba", "a", "bb"), "bb", "a"), "ab");
}

#[test]
fn text_changes_exactly_where_the_string_occurs() {
    for (text, from, to) in [
        ("banana", "an", "na"),
        ("banana", "an", "a"),
        ("banana", "an", "ann"),
        ("banana", "", "x"),
        ("banana", "banana", ""),
    ] {
        assert!(contains(text, from));
        assert_ne!(replace_all(text, from, to), text);
    }
    assert_eq!(replace_all("banana", "an", "an"), "banana");
    assert_eq!(replace_all("banana", "nab", "x"), "banana");
}
