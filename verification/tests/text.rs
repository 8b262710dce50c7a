use cloud_stack::text::{
    clone_texts, compare_text, count_runs, count_words, decimal_string, filled_texts, find_repeat,
    find_repeated_name, hash_text, hash_text_pair, join_texts, replace_text, same_text,
    sort_order, split_text, TextOrder,
};
use std::collections::hash_map::DefaultHasher;
use std::hash::{Hash, Hasher};

fn strings(items: &[&str]) -> Vec<String> {
    items.iter().map(|s| s.to_string()).collect()
}

#[test]
fn decimal_string_writes_numerals() {
    assert_eq!(decimal_string(0), "0");
    assert_eq!(decimal_string(9), "9");
    assert_eq!(decimal_string(10), "10");
    assert_eq!(decimal_string(1234567890), "1234567890");
    assert_eq!(decimal_string(u64::MAX), "18446744073709551615");
}

#[test]
fn hash_text_is_the_hash_of_the_string() {
    for text in ["", "a", "users", "users/id", "h\u{e9}llo/w\u{f6}rld"] {
        let mut hasher = DefaultHasher::default();
        text.hash(&mut hasher);
        assert_eq!(hash_text(text), hasher.finish(), "{text}");
    }
}

#[test]
fn hash_text_pair_is_the_hash_of_both_strings() {
    let mut hasher = DefaultHasher::default();
    "API Gateway".hash(&mut hasher);
    "prod".hash(&mut hasher);
    assert_eq!(hash_text_pair("API Gateway", "prod"), hasher.finish());
    assert_ne!(hash_text_pair("ab", "c"), hash_text_pair("a", "bc"));
}

#[test]
fn compare_text_orders_as_strings_do() {
    let samples = ["", "a", "ab", "b", "a/b", "a-b", "\u{e9}", "z", "users", "users/id"];
    for a in samples {
        for b in samples {
            let expected = if a < b {
                TextOrder::Before
            } else if a == b {
                TextOrder::Same
            } else {
                TextOrder::After
            };
            assert_eq!(compare_text(a, b), expected, "{a:?} {b:?}");
            assert_eq!(same_text(a, b), a == b);
        }
    }
}

#[test]
fn split_text_splits_as_strings_do() {
    for text in ["", "a", "a/b", "/a", "a/", "a//b", "users/id/\u{e9}", "/"] {
        let expected: Vec<String> = text.split('/').map(|s| s.to_string()).collect();
        assert_eq!(split_text(text, '/'), expected, "{text:?}");
    }
}

#[test]
fn join_texts_puts_the_separator_between() {
    assert_eq!(join_texts(&strings(&[]), ", "), "");
    assert_eq!(join_texts(&strings(&["a"]), ", "), "a");
    assert_eq!(join_texts(&strings(&["a", "b", "c"]), ", "), "a, b, c");
    assert_eq!(join_texts(&strings(&["", ""]), "/"), "/");
}

#[test]
fn split_then_join_gives_the_text_back() {
    for text in ["", "a", "a/b/c", "/a//b/"] {
        assert_eq!(join_texts(&split_text(text, '/'), "/"), text);
    }
}

#[test]
fn replace_text_replaces_as_strings_do() {
    let cases = [
        ("$domain/api", "$domain", "example.com"),
        ("aaa", "aa", "b"),
        ("abcabc", "abc", ""),
        ("abc", "", "-"),
        ("", "", "-"),
        ("", "a", "b"),
        ("no match", "xyz", "!"),
        ("{a}{a}{b}", "{a}", "{b}"),
        ("h\u{e9}llo", "\u{e9}", "e"),
        ("xx", "xxx", "y"),
    ];
    for (text, from, to) in cases {
        assert_eq!(replace_text(text, from, to), text.replace(from, to), "{text:?} {from:?}");
    }
}

#[test]
fn count_words_counts_as_split_whitespace_does() {
    for text in ["", " ", "a", " a ", "a b", "a\tb\nc", "  two  words  ", "\u{a0}x\u{2003}y"] {
        assert_eq!(count_words(text), text.split_whitespace().count(), "{text:?}");
    }
}

#[test]
fn count_runs_counts_runs_of_false() {
    assert_eq!(count_runs(&vec![]), 0);
    assert_eq!(count_runs(&vec![true, true]), 0);
    assert_eq!(count_runs(&vec![false]), 1);
    assert_eq!(count_runs(&vec![false, false, true, false]), 2);
    assert_eq!(count_runs(&vec![true, false, true, false, true]), 2);
}

#[test]
fn sort_order_sorts_and_keeps_equal_texts_in_order() {
    let keys = strings(&["pear", "apple", "fig", "apple", ""]);
    assert_eq!(sort_order(&keys), vec![4, 1, 3, 2, 0]);
    assert_eq!(sort_order(&strings(&[])), Vec::<usize>::new());
    assert_eq!(sort_order(&strings(&["b", "a"])), vec![1, 0]);
}

#[test]
fn find_repeat_finds_the_first_text_that_comes_again() {
    assert_eq!(find_repeat(&strings(&["a", "b", "c"])), None);
    assert_eq!(find_repeat(&strings(&["a", "b", "c", "b", "a"])), Some(0));
    assert_eq!(find_repeat(&strings(&["x", "b", "c", "b"])), Some(1));
    assert_eq!(find_repeat(&strings(&[])), None);
}

#[test]
fn clone_texts_copies() {
    let list = strings(&["a", "", "c"]);
    assert_eq!(clone_texts(&list), list);
}

#[test]
fn filled_texts_leaves_out_the_empty_pieces() {
    assert_eq!(filled_texts(&strings(&["", "a", "", "b", ""])), strings(&["a", "b"]));
    assert_eq!(filled_texts(&strings(&["", ""])), strings(&[]));
    assert_eq!(filled_texts(&strings(&[])), strings(&[]));
}

#[test]
fn a_repeated_name_is_found_whatever_the_capitalization() {
    assert_eq!(find_repeated_name(&strings(&["a", "B", "c", "b", "A"])), Some(0));
    assert_eq!(find_repeated_name(&strings(&["x", "B", "c", "b"])), Some(1));
    assert_eq!(find_repeated_name(&strings(&["a", "b"])), None);
}

#[test]
fn white_space_is_what_the_listing_says() {
    let listed = |code: u32| {
        (0x0009..=0x000D).contains(&code)
            || code == 0x0020
            || code == 0x0085
            || code == 0x00A0
            || code == 0x1680
            || (0x2000..=0x200A).contains(&code)
            || code == 0x2028
            || code == 0x2029
            || code == 0x202F
            || code == 0x205F
            || code == 0x3000
    };
    for code in 0..=0x10FFFFu32 {
        if let Some(c) = char::from_u32(code) {
            assert_eq!(c.is_whitespace(), listed(code), "{code:#x}");
        }
    }
    for code in [0x20u32, 0x85, 0xA0, 0x1680, 0x2003, 0x2028, 0x3000, 0x61, 0x200B, 0x180E] {
        let c = char::from_u32(code).unwrap();
        let text = format!("a{c}b");
        assert_eq!(count_words(&text), if listed(code) { 2 } else { 1 }, "{code:#x}");
    }
}
