use spinshare::order::{chars_eq, chars_have_prefix, chars_lt, insert_sorted};
use spinshare::text::{chars_of, join_with_spaces, split_words, string_from_chars, word_chars};

fn strings(v: &[&str]) -> Vec<String> {
    v.iter().map(|s| s.to_string()).collect()
}

#[test]
fn chars_round_trip() {
    let cs = chars_of("héllo");
    assert_eq!(cs, vec!['h', 'é', 'l', 'l', 'o']);
    assert_eq!(string_from_chars(&cs), "héllo");
    assert_eq!(string_from_chars(&Vec::new()), "");
}

#[test]
fn words_split_on_unicode_whitespace() {
    assert_eq!(
        split_words("  a\tbb\n\u{3000}ccc\u{85}d\u{a0}e  "),
        strings(&["a", "bb", "ccc", "d", "e"])
    );
    assert_eq!(split_words(""), Vec::<String>::new());
    assert_eq!(split_words(" \t\n "), Vec::<String>::new());
    assert_eq!(split_words("one"), strings(&["one"]));
    assert_eq!(word_chars("x y"), vec![vec!['x'], vec!['y']]);
}

#[test]
fn words_match_split_whitespace() {
    for s in ["a b", "  leading", "trailing  ", "x\u{2003}y\u{205f}z", "mixed\r\nlines\u{1680}here"] {
        let expected: Vec<String> = s.split_whitespace().map(|w| w.to_string()).collect();
        assert_eq!(split_words(s), expected);
    }
}

#[test]
fn join_puts_single_spaces_between() {
    assert_eq!(join_with_spaces(&strings(&["a", "b", "c"])), "a b c");
    assert_eq!(join_with_spaces(&strings(&["solo"])), "solo");
    assert_eq!(join_with_spaces(&Vec::new()), "");
}

#[test]
fn lexicographic_order_by_code_point() {
    let a = chars_of("a");
    let ab = chars_of("ab");
    let b = chars_of("b");
    let upper_b = chars_of("B");
    assert!(chars_lt(&a, &ab));
    assert!(chars_lt(&ab, &b));
    assert!(chars_lt(&upper_b, &a));
    assert!(!chars_lt(&a, &a));
    assert!(!chars_lt(&b, &ab));
    assert!(chars_lt(&Vec::new(), &a));
    assert!(!chars_lt(&a, &Vec::new()));
}

#[test]
fn equality_and_prefix() {
    assert!(chars_eq(&chars_of("abc"), &chars_of("abc")));
    assert!(!chars_eq(&chars_of("abc"), &chars_of("abd")));
    assert!(!chars_eq(&chars_of("abc"), &chars_of("ab")));
    assert!(chars_have_prefix(&chars_of("spinner/x"), &chars_of("spinner/")));
    assert!(!chars_have_prefix(&chars_of("spin"), &chars_of("spinner/")));
    assert!(chars_have_prefix(&chars_of("abc"), &Vec::new()));
}

#[test]
fn sorted_insertion_keeps_order_and_drops_repeats() {
    let mut v: Vec<Vec<char>> = Vec::new();
    for w in ["m", "c", "x", "c", "a", "m", "z"] {
        insert_sorted(&mut v, chars_of(w));
    }
    let got: Vec<String> = v.iter().map(|w| w.iter().collect()).collect();
    assert_eq!(got, strings(&["a", "c", "m", "x", "z"]));
}

#[test]
fn splitting_undoes_joining() {
    let words = strings(&["spinner/a", "b", "ÉTÉ"]);
    assert_eq!(split_words(&join_with_spaces(&words)), words);
}

#[test]
fn normalizing_whitespace_is_stable() {
    let s = " a \t b\u{3000}\u{3000}c  ";
    let once = join_with_spaces(&split_words(s));
    assert_eq!(once, "a b c");
    assert_eq!(split_words(&once), split_words(s));
    assert_eq!(join_with_spaces(&split_words(&once)), once);
}
