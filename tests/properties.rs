use rustdb::collection::{Collection, ItemNode};
use rustdb::error::DbError;
use rustdb::fields::FieldSet;
use rustdb::record::TableEntry;

fn entry(id: &str, name: &str, age: &str) -> TableEntry {
    let mut e = TableEntry::new();
    e.insert("id".to_owned(), id.to_owned());
    e.insert("name".to_owned(), name.to_owned());
    e.insert("age".to_owned(), age.to_owned());
    e
}

fn one(key: &str, value: &str) -> TableEntry {
    let mut e = TableEntry::new();
    e.insert(key.to_owned(), value.to_owned());
    e
}

fn people() -> Collection {
    let mut set = FieldSet::new();
    set.insert("id".to_owned());
    set.insert("name".to_owned());
    set.insert("age".to_owned());
    let mut c = Collection::new(&set);
    assert_eq!(c.insert(&entry("0", "Ada", "24")), Ok(()));
    assert_eq!(c.insert(&entry("1", "Joey", "25")), Ok(()));
    c
}

#[test]
fn empty_template_finds_every_inserted_record() {
    let mut c = people();
    assert_eq!(c.insert(&entry("0", "Ada", "24")), Ok(()));
    let all = c.find(&TableEntry::new()).unwrap();
    assert_eq!(all, vec![entry("0", "Ada", "24"), entry("1", "Joey", "25"), entry("0", "Ada", "24")]);
    assert_eq!(c.get_number_of_data(), 3);
}

#[test]
fn empty_collection_finds_nothing() {
    let c = Collection::new(&FieldSet::new());
    assert_eq!(c.get_number_of_data(), 0);
    assert_eq!(c.find(&TableEntry::new()), Some(vec![]));
}

#[test]
fn find_is_a_partial_match() {
    let c = people();
    assert_eq!(c.find(&one("age", "25")), Some(vec![entry("1", "Joey", "25")]));
    assert_eq!(c.find(&one("age", "99")), Some(vec![]));
    let mut two = one("age", "24");
    two.insert("name".to_owned(), "Joey".to_owned());
    assert_eq!(c.find(&two), Some(vec![]));
}

#[test]
fn insert_outside_fields_is_refused() {
    let mut c = people();
    let mut bad = entry("2", "Ross", "30");
    bad.insert("gender".to_owned(), "male".to_owned());
    assert_eq!(c.insert(&bad), Err(DbError::SchemaViolation));
    assert_eq!(c.get_number_of_data(), 2);
}

#[test]
fn update_moves_records_between_templates() {
    let mut c = people();
    assert_eq!(c.update(&one("age", "25"), &one("age", "24")), Some(1));
    assert_eq!(c.find(&one("age", "25")), Some(vec![]));
    assert_eq!(c.find(&one("age", "24")).unwrap().len(), 2);
}

#[test]
fn update_adds_missing_keys_and_refuses_undeclared_ones() {
    let mut set = FieldSet::new();
    set.insert("id".to_owned());
    set.insert("name".to_owned());
    let mut c = Collection::new(&set);
    assert_eq!(c.insert(&one("id", "7")), Ok(()));
    assert_eq!(c.update(&one("id", "7"), &one("name", "Ada")), Some(1));
    let mut expected = one("id", "7");
    expected.insert("name".to_owned(), "Ada".to_owned());
    assert_eq!(c.find(&TableEntry::new()), Some(vec![expected]));
    assert_eq!(c.update(&one("id", "7"), &one("age", "1")), None);
    assert_eq!(c.update(&one("age", "1"), &one("id", "8")), None);
    assert_eq!(c.delete(&one("age", "1")), None);
}

#[test]
fn delete_removes_what_find_returns_and_is_idempotent() {
    let mut c = people();
    assert_eq!(c.insert(&entry("2", "Ross", "25")), Ok(()));
    let t = one("age", "25");
    let found = c.find(&t).unwrap();
    assert_eq!(c.delete(&t), Some(found.len()));
    assert_eq!(c.find(&t), Some(vec![]));
    assert_eq!(c.delete(&t), Some(0));
    assert_eq!(c.find(&TableEntry::new()), Some(vec![entry("0", "Ada", "24")]));
}

#[test]
fn appends_in_either_order_give_the_same_records() {
    let mut a = people();
    let mut b = people();
    let _ = a.insert(&entry("5", "Mia", "30"));
    let _ = a.insert(&entry("6", "Tom", "31"));
    let _ = b.insert(&entry("6", "Tom", "31"));
    let _ = b.insert(&entry("5", "Mia", "30"));
    assert_eq!(a.get_number_of_data(), b.get_number_of_data());
    for t in [one("id", "5"), one("id", "6"), one("age", "24")] {
        assert_eq!(a.find(&t), b.find(&t));
    }
}

#[test]
fn deletes_in_either_order_give_the_same_records() {
    let mut a = people();
    let mut b = people();
    let _ = a.delete(&one("age", "24"));
    let _ = a.delete(&one("name", "Joey"));
    let _ = b.delete(&one("name", "Joey"));
    let _ = b.delete(&one("age", "24"));
    assert_eq!(a.find(&TableEntry::new()), b.find(&TableEntry::new()));
    assert_eq!(a.get_number_of_data(), 0);
}

#[test]
fn record_insert_overwrites_and_remove_drops() {
    let mut e = one("id", "1");
    e.insert("id".to_owned(), "2".to_owned());
    assert_eq!(e, one("id", "2"));
    assert_eq!(e.get(&"id".to_owned()), Some(&"2".to_owned()));
    e.remove(&"id".to_owned());
    assert_eq!(e, TableEntry::new());
    assert_eq!(e.get(&"id".to_owned()), None);
}

#[test]
fn record_equality_ignores_order() {
    let mut a = one("a", "1");
    a.insert("b".to_owned(), "2".to_owned());
    let mut b = one("b", "2");
    b.insert("a".to_owned(), "1".to_owned());
    assert_eq!(a, b);
    b.insert("a".to_owned(), "3".to_owned());
    assert_ne!(a, b);
}

#[test]
fn update_field_only_touches_existing_fields() {
    let mut node = ItemNode::new(&entry("0", "Ada", "24"));
    assert_eq!(node.update_field("age".to_owned(), "25".to_owned()), Ok(()));
    assert_eq!(*node.get_content(), entry("0", "Ada", "25"));
    assert_eq!(node.update_field("gender".to_owned(), "f".to_owned()), Err("Such field does not exist!"));
    assert_eq!(*node.get_content(), entry("0", "Ada", "25"));
}

#[test]
fn field_set_equality_is_set_equality() {
    let mut a = FieldSet::new();
    a.insert("x".to_owned());
    a.insert("y".to_owned());
    a.insert("x".to_owned());
    let b = FieldSet::from_names(&vec!["y".to_owned(), "x".to_owned()]);
    assert!(a == b);
    assert!(a.contains(&"x".to_owned()));
    assert!(!a.contains(&"z".to_owned()));
    assert_eq!(a.to_vec().len(), 2);
}
