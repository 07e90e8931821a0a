use viva::table::IdTable;
use viva::text::{join_texts, same_text, text_order, TextOrder};

#[test]
fn text_order_is_the_dictionary_order() {
    assert_eq!(text_order("a", "b"), TextOrder::Before);
    assert_eq!(text_order("b", "a"), TextOrder::After);
    assert_eq!(text_order("abc", "abc"), TextOrder::Same);
    assert_eq!(text_order("", ""), TextOrder::Same);
    assert_eq!(text_order("", "a"), TextOrder::Before);
    assert_eq!(text_order("ab", "abc"), TextOrder::Before);
    assert_eq!(text_order("abc", "ab"), TextOrder::After);
    assert_eq!(text_order("Z", "a"), TextOrder::Before);
    assert_eq!(text_order("é", "z"), TextOrder::After);
    assert_eq!(text_order("env-10", "env-2"), TextOrder::Before);
}

#[test]
fn text_order_agrees_with_the_order_of_strings() {
    let words = ["", "a", "ab", "b", "default", "Default", "z", "é", "日本", "a\u{10000}"];
    for x in words {
        for y in words {
            let expected = match x.cmp(y) {
                std::cmp::Ordering::Less => TextOrder::Before,
                std::cmp::Ordering::Equal => TextOrder::Same,
                std::cmp::Ordering::Greater => TextOrder::After,
            };
            assert_eq!(text_order(x, y), expected);
        }
    }
}

#[test]
fn same_text_compares_contents() {
    assert!(same_text("json", "json"));
    assert!(!same_text("json", "jso"));
    assert!(!same_text("json", "yaml"));
}

#[test]
fn table_lists_ids_in_ascending_order() {
    let mut t: IdTable<u32> = IdTable::new();
    assert_eq!(t.len(), 0);
    assert_eq!(t.insert("m".to_string(), 1), None);
    assert_eq!(t.insert("a".to_string(), 2), None);
    assert_eq!(t.insert("z".to_string(), 3), None);
    assert_eq!(t.insert("b".to_string(), 4), None);
    assert_eq!(t.keys(), vec!["a", "b", "m", "z"]);
    assert_eq!(t.len(), 4);
    assert_eq!(t.get("m"), Some(&1));
    assert_eq!(t.get("x"), None);
    assert!(t.contains_key("z"));
    assert!(!t.contains_key(""));
}

#[test]
fn table_insert_replaces_and_hands_back_the_old_value() {
    let mut t: IdTable<u32> = IdTable::new();
    t.insert("a".to_string(), 1);
    assert_eq!(t.insert("a".to_string(), 7), Some(1));
    assert_eq!(t.get("a"), Some(&7));
    assert_eq!(t.len(), 1);
}

#[test]
fn table_remove_and_get_mut() {
    let mut t: IdTable<u32> = IdTable::new();
    t.insert("b".to_string(), 1);
    t.insert("a".to_string(), 2);
    t.insert("c".to_string(), 3);
    if let Some(v) = t.get_mut("b") {
        *v = 10;
    }
    assert!(t.get_mut("nope").is_none());
    assert_eq!(t.get("b"), Some(&10));
    assert_eq!(t.remove("b"), Some(10));
    assert_eq!(t.remove("b"), None);
    assert_eq!(t.keys(), vec!["a", "c"]);
    let first = t.entry_at(0).unwrap();
    assert_eq!((first.0.as_str(), *first.1), ("a", 2));
    let second = t.entry_at(1).unwrap();
    assert_eq!((second.0.as_str(), *second.1), ("c", 3));
    assert!(t.entry_at(2).is_none());
}

#[test]
fn texts_are_joined_with_the_separator_between_them() {
    let words: Vec<String> = ["x", "y", "z"].iter().map(|s| s.to_string()).collect();
    assert_eq!(join_texts(&words, ", "), "x, y, z");
    assert_eq!(join_texts(&words[..1].to_vec(), ", "), "x");
    assert_eq!(join_texts(&Vec::new(), ", "), "");
    assert_eq!(join_texts(&words, ""), "xyz");
}
