use rss_core::marks::{KeySet, MarkTable};

fn sorted(mut v: Vec<String>) -> Vec<String> {
    v.sort();
    v
}

#[test]
fn key_set_insert_reports_new_keys_once() {
    let mut set = KeySet::new();
    assert!(!set.contains("a"));
    assert!(set.insert("a".to_string()));
    assert!(set.contains("a"));
    assert!(!set.insert("a".to_string()));
    assert!(set.insert("b".to_string()));
    assert!(!set.contains("c"));
    assert_eq!(sorted(set.to_vec()), vec!["a".to_string(), "b".to_string()]);
}

#[test]
fn key_set_from_vec_holds_the_listed_keys() {
    let set = KeySet::from_vec(vec!["x".to_string(), "y".to_string()]);
    assert!(set.contains("x"));
    assert!(set.contains("y"));
    assert!(!set.contains("xy"));
    assert!(!set.contains(""));
}

#[test]
fn mark_table_keeps_feeds_apart() {
    let mut table = MarkTable::new();
    assert!(!table.contains("f1", "guid:1"));
    assert!(table.insert("f1", "guid:1".to_string()));
    assert!(table.contains("f1", "guid:1"));
    assert!(!table.contains("f2", "guid:1"));
    assert!(table.insert("f2", "guid:1".to_string()));
    assert!(!table.insert("f1", "guid:1".to_string()));
    assert!(table.insert("f1", "guid:2".to_string()));
    assert!(table.contains("f1", "guid:2"));
    assert!(!table.contains("f2", "guid:2"));
}

#[test]
fn mark_table_remove_feed_forgets_only_that_feed() {
    let mut table = MarkTable::new();
    table.insert("f1", "a".to_string());
    table.insert("f2", "b".to_string());
    table.remove_feed("f1");
    assert!(!table.contains("f1", "a"));
    assert!(table.contains("f2", "b"));
    table.remove_feed("f1");
    assert!(table.contains("f2", "b"));
    assert!(table.insert("f1", "a".to_string()));
}

#[test]
fn mark_table_rows_round_trip() {
    let mut table = MarkTable::new();
    table.insert("f1", "a".to_string());
    table.insert("f1", "b".to_string());
    table.insert("f2", "c".to_string());
    let rows = table.to_rows();
    assert_eq!(rows.len(), 2);
    assert_eq!(rows[0].0, "f1");
    assert_eq!(sorted(rows[0].1.clone()), vec!["a".to_string(), "b".to_string()]);
    assert_eq!(rows[1].0, "f2");
    assert_eq!(rows[1].1, vec!["c".to_string()]);
    let back = MarkTable::from_rows(rows);
    assert!(back.contains("f1", "a"));
    assert!(back.contains("f1", "b"));
    assert!(back.contains("f2", "c"));
    assert!(!back.contains("f2", "a"));
}

#[test]
fn mark_table_from_rows_lets_the_first_row_of_a_feed_count() {
    let table = MarkTable::from_rows(vec![
        ("f".to_string(), vec!["first".to_string()]),
        ("g".to_string(), Vec::new()),
        ("f".to_string(), vec!["second".to_string()]),
    ]);
    assert!(table.contains("f", "first"));
    assert!(!table.contains("f", "second"));
    assert!(!table.contains("g", "first"));
}

#[test]
fn key_set_lists_each_key_once() {
    let set = KeySet::from_vec(vec!["x".to_string(), "y".to_string(), "x".to_string()]);
    assert_eq!(sorted(set.to_vec()), vec!["x".to_string(), "y".to_string()]);
    assert!(KeySet::from_vec(Vec::new()).to_vec().is_empty());
}

#[test]
fn mark_table_lists_each_feed_once() {
    let table = MarkTable::from_rows(vec![
        ("f".to_string(), vec!["a".to_string(), "a".to_string()]),
        ("f".to_string(), vec!["b".to_string()]),
    ]);
    let rows = table.to_rows();
    assert_eq!(rows.len(), 1);
    assert_eq!(rows[0].0, "f");
    assert_eq!(rows[0].1, vec!["a".to_string()]);
}
