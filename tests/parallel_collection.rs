#![allow(non_snake_case)]
use rustdb::collection::{Collection, ItemNode};
use rustdb::fields::FieldSet;
use rustdb::record::TableEntry;

fn new_table_entry(id: usize, name: &str, age: usize) -> TableEntry {
    let mut entry = TableEntry::new();
    entry.insert("id".to_owned(), id.to_string());
    entry.insert("name".to_owned(), name.to_string());
    entry.insert("age".to_owned(), age.to_string());
    entry
}

fn new_sort_entry(id: usize, name: &str, age: usize) -> TableEntry {
    let mut entry = TableEntry::new();
    entry.insert("id".to_owned(), id.to_string());
    entry.insert("name".to_owned(), name.to_owned());
    entry.insert("age".to_owned(), age.to_string());
    entry
}

fn new_long_entry(id: usize, name: &str, age: usize, sex: &str) -> TableEntry {
    let mut entry = TableEntry::new();
    entry.insert("id".to_owned(), id.to_string());
    entry.insert("name".to_owned(), name.to_owned());
    entry.insert("age".to_owned(), age.to_string());
    entry.insert("gender".to_owned(), sex.to_owned());
    entry
}

fn new_collection() -> Collection {
    let mut set = FieldSet::new();
    set.insert("id".to_owned());
    set.insert("name".to_owned());
    set.insert("age".to_owned());
    Collection::new(&set)
}

#[test]
fn vecParallelCollection_node_validate_test() {
    let mut node = ItemNode::new(&new_table_entry(0, "Ada", 24));
    assert!(node.is_valid());
    node.set_valid(false);
    assert!(!node.is_valid());
}

#[test]
fn vecParallelCollection_node_matches_test() {
    let node = ItemNode::new(&new_table_entry(0, "Ada", 24));
    assert!(node.is_valid());

    let mut matched = new_table_entry(0, "Ada", 24);
    assert!(node.matched(&matched));
    matched.remove(&String::from("age"));
    assert!(node.matched(&matched));

    let mut non_matched = new_table_entry(0, "Joey", 24);
    assert!(!node.matched(&non_matched));
    non_matched.insert("name".to_owned(), "Ada".to_owned());
    non_matched.insert("sex".to_owned(), "female".to_owned());
    assert!(!node.matched(&non_matched));
}

#[test]
fn vecParallelCollection_node_modify_test() {
    let mut node = ItemNode::new(&new_table_entry(0, "Ada", 24));

    let matched = new_table_entry(0, "Ada", 24);
    assert_eq!(*node.get_content(), matched);

    let non_matched = new_table_entry(0, "Joey", 24);
    node.modify(&non_matched);
    assert_eq!(*node.get_content(), non_matched);
}

#[test]
fn vecParallelCollection_insert_test() {
    let mut clct = new_collection();
    let _ = clct.insert(&new_sort_entry(0, "Ada", 24));
    let _ = clct.insert(&new_sort_entry(1, "Joey", 25));
    assert_eq!(clct.get_number_of_data(), 2);

    let _ = clct.insert(&new_sort_entry(2, "Ross", 25));
    assert_eq!(clct.get_number_of_data(), 3);
}

#[test]
fn vecParallelCollection_find_test() {
    let mut clct = new_collection();
    let _ = clct.insert(&new_sort_entry(0, "Ada", 24));
    let _ = clct.insert(&new_sort_entry(1, "Joey", 25));
    let _ = clct.insert(&new_sort_entry(1, "Ross", 25));

    let mut target = TableEntry::new();
    target.insert("age".to_owned(), 25.to_string());
    let expected: Vec<TableEntry> = vec![new_sort_entry(1, "Joey", 25), new_sort_entry(1, "Ross", 25)];

    assert_eq!(clct.find(&target), Some(expected));

    let non_valid = new_long_entry(0, "Ada", 24, "female");
    assert_eq!(clct.find(&non_valid), None);
}

#[test]
fn vecParallelCollection_update_test() {
    let mut clct = new_collection();
    let _ = clct.insert(&new_sort_entry(0, "Ada", 24));
    let _ = clct.insert(&new_sort_entry(1, "Joey", 25));
    let _ = clct.insert(&new_sort_entry(1, "Ross", 25));

    let mut target = TableEntry::new();
    target.insert("age".to_owned(), 25.to_string());
    let expected: Vec<TableEntry> = vec![new_sort_entry(1, "Ross", 25), new_sort_entry(1, "Joey", 25)];
    let _ = expected;

    let mut update_desired = TableEntry::new();
    update_desired.insert("age".to_owned(), 24.to_string());
    assert_eq!(clct.update(&target, &update_desired), Some(2));

    let empty_vector = Vec::new();
    assert_eq!(clct.find(&target), Some(empty_vector));

    let mut new_target = TableEntry::new();
    new_target.insert("age".to_owned(), 24.to_string());
    let new_expected: Vec<TableEntry> =
        vec![new_sort_entry(0, "Ada", 24), new_sort_entry(1, "Joey", 24), new_sort_entry(1, "Ross", 24)];
    assert_eq!(clct.find(&new_target), Some(new_expected));
}

#[test]
fn vecParallelCollection_delete_test() {
    let mut clct = new_collection();
    let _ = clct.insert(&new_sort_entry(0, "Ada", 24));
    let _ = clct.insert(&new_sort_entry(1, "Joey", 25));
    let _ = clct.insert(&new_sort_entry(1, "Ross", 25));

    let mut target = TableEntry::new();
    target.insert("age".to_owned(), 25.to_string());
    let expected: Vec<TableEntry> = vec![new_sort_entry(1, "Joey", 25), new_sort_entry(1, "Ross", 25)];
    assert_eq!(clct.find(&target), Some(expected));
    assert_eq!(clct.delete(&target), Some(2));

    let empty_vector = Vec::new();
    assert_eq!(clct.find(&target), Some(empty_vector));
}
