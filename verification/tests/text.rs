use ros_hydra_stats::table::Table;
use ros_hydra_stats::text::{
    chars_of, decimal_text, join, lines_of, remove_all, replace_char, same_text, split_at_char,
    starts_with, text_of, text_order, Order,
};

#[test]
fn texts_are_ordered_by_bytes() {
    assert!(text_order("a", "b") == Order::Before);
    assert!(text_order("b", "a") == Order::After);
    assert!(text_order("ab", "ab") == Order::Same);
    assert!(text_order("", "a") == Order::Before);
    assert!(text_order("a", "ab") == Order::Before);
    assert!(text_order("a-b", "a_b") == Order::Before);
    assert!(text_order("Z", "a") == Order::Before);
    assert!(text_order("é", "z") == Order::After);
    assert!(text_order("\u{ffff}", "\u{10000}") == Order::Before);
}

#[test]
fn order_of_texts_is_that_of_str() {
    let texts = ["", "a", "aa", "ab", "b", "é", "ß", "日本", "日", "\u{10ffff}", "a\nb"];
    for a in texts {
        for b in texts {
            let expected = if a < b {
                Order::Before
            } else if a == b {
                Order::Same
            } else {
                Order::After
            };
            assert!(text_order(a, b) == expected);
            assert_eq!(same_text(a, b), a == b);
        }
    }
}

#[test]
fn characters_of_a_text() {
    assert_eq!(chars_of("aé\n"), vec!['a', 'é', '\n']);
    assert_eq!(text_of(&chars_of("abcd"), 1, 3), "bc");
    assert_eq!(text_of(&chars_of("abcd"), 2, 2), "");
}

#[test]
fn numbers_in_decimal() {
    assert_eq!(decimal_text(0), "0");
    assert_eq!(decimal_text(9), "9");
    assert_eq!(decimal_text(10), "10");
    assert_eq!(decimal_text(1203), "1203");
    assert_eq!(decimal_text(u64::MAX), "18446744073709551615");
}

#[test]
fn characters_are_replaced() {
    assert_eq!(replace_char("a-b-c", '-', '_'), "a_b_c");
    assert_eq!(replace_char("", '-', '_'), "");
    assert_eq!(replace_char("abc", '-', '_'), "abc");
}

#[test]
fn starts_of_texts() {
    assert!(starts_with("build/12", "build/"));
    assert!(starts_with("build/", "build/"));
    assert!(!starts_with("build", "build/"));
    assert!(!starts_with("eval/12", "build/"));
    assert!(starts_with("anything", ""));
}

#[test]
fn removed_parts_do_not_overlap() {
    assert_eq!(remove_all("aXbXc", "X"), "abc");
    assert_eq!(remove_all("aaa", "aa"), "a");
    assert_eq!(remove_all("abab", "ab"), "");
    assert_eq!(remove_all("abc", ""), "abc");
    assert_eq!(remove_all("", "x"), "");
    for (s, cut) in [("aXbXc", "X"), ("aaa", "aa"), ("abab", "ab"), ("abc", ""), ("aabab", "ab")] {
        assert_eq!(remove_all(s, cut), s.replace(cut, ""));
    }
}

#[test]
fn texts_are_split() {
    assert_eq!(split_at_char("a.b.c", '.'), vec!["a", "b", "c"]);
    assert_eq!(split_at_char("", '.'), vec![""]);
    assert_eq!(split_at_char(".", '.'), vec!["", ""]);
    assert_eq!(split_at_char("abc", '.'), vec!["abc"]);
}

#[test]
fn lines_are_those_of_str() {
    for s in ["", "\n", "a", "a\n", "a\nb", "a\r\nb\r\n", "a\r", "\r\n", "a\n\nb\n\n", "a\r\r\n"] {
        let expected: Vec<String> = s.lines().map(|line| line.to_string()).collect();
        assert_eq!(lines_of(s), expected);
    }
}

#[test]
fn texts_are_joined() {
    let parts = vec!["a".to_string(), "b".to_string(), "".to_string()];
    assert_eq!(join(&parts, ", "), "a, b, ");
    assert_eq!(join(&Vec::new(), ", "), "");
    assert_eq!(join(&vec!["a".to_string()], ", "), "a");
}

#[test]
fn table_keeps_keys_in_order() {
    let mut table: Table<u32> = Table::new();
    assert_eq!(table.len(), 0);
    assert_eq!(table.get("a"), None);
    table.insert("c", 3);
    table.insert("a", 1);
    table.insert("b", 2);
    table.insert("a", 10);
    assert_eq!(table.len(), 3);
    assert_eq!(table.entry(0), ("a", &10));
    assert_eq!(table.entry(1), ("b", &2));
    assert_eq!(table.entry(2), ("c", &3));
    assert_eq!(table.get("b"), Some(&2));
    assert_eq!(table.get("d"), None);
}

#[test]
fn table_collects_items_under_a_key() {
    let mut table: Table<Vec<u32>> = Table::new();
    table.add("x", 1);
    table.add("w", 2);
    table.add("x", 1);
    table.add("x", 3);
    assert_eq!(table.len(), 2);
    assert_eq!(table.get("x"), Some(&vec![1, 1, 3]));
    assert_eq!(table.get("w"), Some(&vec![2]));
    assert_eq!(table.entry(0).0, "w");
}
