use qedgen::names::NameMap;
use qedgen::number::{decimal_string, int_string, parse_u128, parse_u8, parse_usize};
use qedgen::pattern::{
    prefix_matches, prefix_state_fields, replace_pattern, replace_word, scan_abstract_fields,
};
use qedgen::search::{contains, drop_char, ends_with, replace, starts_with};
use qedgen::split::{
    lines, rsplit_once, split, split_once, trim, trim_end_char, trim_start_matches, words,
};

#[test]
fn prefix_state_fields_word_boundary() {
    let fields = vec!["amount".to_string(), "taker".to_string()];

    let out = prefix_state_fields("amount > 0", &fields);
    assert_eq!(out, "s.amount > 0");

    let out = prefix_state_fields("taker_amount > 0", &fields);
    assert_eq!(out, "taker_amount > 0");
}

#[test]
fn a_field_with_a_prefix_keeps_it() {
    let fields = vec!["amount".to_string(), "taker".to_string()];
    assert_eq!(prefix_state_fields("s.amount > amount", &fields), "s.amount > s.amount");
    assert_eq!(
        prefix_state_fields("s'.taker = taker ∧ amount", &fields),
        "s'.taker = s.taker ∧ s.amount"
    );
    let once = prefix_state_fields("amount + taker", &fields);
    assert_eq!(prefix_state_fields(&once, &fields), once);
    assert_eq!(prefix_matches("a.b b", &vec![], "s."), "a.b b");
}

#[test]
fn words_are_replaced_whole_and_literally() {
    assert_eq!(replace_word("State and MyState", "State", "PoolState"), "PoolState and MyState");
    assert_eq!(replace_word("a.b a_b", "a.b", "$1"), "$1 a_b");
    assert_eq!(replace_pattern("[", "text", "x"), "text");
}

#[test]
fn fields_of_the_state_are_found_once() {
    assert_eq!(scan_abstract_fields("s.a + s'.b = s.a + as.c"), ["a", "b"]);
}

#[test]
fn text_is_searched_and_replaced() {
    assert!(contains("abc", "bc") && contains("abc", "") && !contains("abc", "cb"));
    assert!(starts_with("abc", "ab") && ends_with("abc", "bc") && !ends_with("c", "bc"));
    assert_eq!(replace("aaa", "aa", "b"), "ba");
    assert_eq!(replace("a-b-c", "-", "--"), "a--b--c");
    assert_eq!(drop_char(" a b ", ' '), "ab");
}

#[test]
fn text_is_trimmed_and_split() {
    assert_eq!(trim(" \t\u{a0}x y\n"), "x y");
    assert_eq!(split("a,,b,", ','), ["a", "", "b", ""]);
    assert_eq!(lines("a\r\nb\n\nc"), ["a", "b", "", "c"]);
    assert_eq!(words("  a \n b\tc "), ["a", "b", "c"]);
    assert_eq!(split_once("a:b:c", ':'), Some(("a".to_string(), "b:c".to_string())));
    assert_eq!(rsplit_once("a:b:c", ':'), Some(("a:b".to_string(), "c".to_string())));
    assert_eq!(trim_start_matches("&&&x&", "&"), "x&");
    assert_eq!(trim_end_char("x,,", ','), "x");
}

#[test]
fn numbers_are_written_and_read() {
    assert_eq!(decimal_string(0), "0");
    assert_eq!(decimal_string(u128::MAX), u128::MAX.to_string());
    assert_eq!(int_string(i64::MIN), i64::MIN.to_string());
    for t in ["0", "7", "+7", "007", "255", "256", "-1", "", "+", "1_0", "18446744073709551616"] {
        assert_eq!(parse_u8(t), t.parse::<u8>().ok(), "{}", t);
        assert_eq!(parse_usize(t), t.parse::<usize>().ok(), "{}", t);
        assert_eq!(parse_u128(t), t.parse::<u128>().ok(), "{}", t);
    }
}

#[test]
fn maps_keep_their_names_in_order() {
    let mut m: NameMap<u8> = NameMap::new();
    for (k, v) in [("b", 1), ("a", 2), ("c", 3), ("ab", 4), ("b", 5)] {
        m.insert(k.to_string(), v);
    }
    let keys: Vec<&str> = (0..m.len()).map(|i| m.key(i).as_str()).collect();
    assert_eq!(keys, ["a", "ab", "b", "c"]);
    assert_eq!(m.get("b"), Some(&5));
    assert_eq!(m.remove("ab"), Some(4));
    assert_eq!(m.remove("x"), None);
    let mut n: NameMap<u8> = NameMap::new();
    n.insert("a".to_string(), 9);
    n.insert("z".to_string(), 8);
    m.absorb(n);
    assert_eq!((m.get("a"), m.get("c"), m.get("z")), (Some(&9), Some(&3), Some(&8)));
    assert_eq!(m.pop(), Some(("z".to_string(), 8)));
}
