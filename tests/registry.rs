use rustdb::collection::Collection;
use rustdb::error::DbError;
use rustdb::fields::FieldSet;
use rustdb::record::TableEntry;
use rustdb::registry::RustDB;

fn new_student_fields() -> FieldSet {
    let mut fields = FieldSet::new();
    fields.insert("id".to_owned());
    fields.insert("name".to_owned());
    fields.insert("age".to_owned());
    fields
}

fn new_other_fields() -> FieldSet {
    let mut fields = FieldSet::new();
    fields.insert("id".to_owned());
    fields.insert("gender".to_owned());
    fields
}

fn new_sort_entry(id: usize, name: &str, age: usize) -> TableEntry {
    let mut entry = TableEntry::new();
    entry.insert("id".to_owned(), id.to_string());
    entry.insert("name".to_owned(), name.to_owned());
    entry.insert("age".to_owned(), age.to_string());
    entry
}

#[test]
fn create_table_test() {
    let mut db = RustDB::new();
    let fields = new_student_fields();
    let collection_for_test = Collection::new(&fields);
    let create_result = db.create_table("student", &fields);
    assert!(create_result.is_ok());
    assert_eq!(&collection_for_test, create_result.unwrap());
}

#[test]
fn find_cl_test() {
    let mut db = RustDB::new();
    let fields = new_student_fields();
    assert!(db.create_table("student", &fields).is_ok());
    assert!(db.find_cl("student").is_ok());
    assert!(!db.find_cl("teacher").is_ok());
}

#[test]
fn create_table_when_table_exists() {
    let mut db = RustDB::new();
    let student_fields = new_student_fields();
    let other_fields = new_other_fields();
    assert!(db.create_table("student", &student_fields).is_ok());
    assert!(!db.create_table("student", &other_fields).is_ok());
}

#[test]
fn delete_cl_test() {
    let mut db = RustDB::new();
    let student_fields = new_student_fields();
    let _ = db.create_table("student", &student_fields);
    assert!(db.delete_cl("student").is_ok());
    assert!(!db.delete_cl("student").is_ok());
}

#[test]
fn create_table_after_deletion() {
    let mut db = RustDB::new();
    let student_fields = new_student_fields();
    let _ = db.create_table("student", &student_fields);
    let _ = db.delete_cl("student");
    assert!(db.create_table("student", &student_fields).is_ok());
}

#[test]
fn registry_errors_name_the_failure() {
    let mut db = RustDB::new();
    let fields = new_student_fields();
    assert!(db.create_table("x", &fields).is_ok());
    assert_eq!(db.create_table("x", &fields).err(), Some(DbError::DuplicateCollection));
    assert_eq!(db.delete_cl("x"), Ok("Collection has been deleted"));
    assert_eq!(db.delete_cl("x"), Err(DbError::UnknownCollection));
    assert!(db.create_table("x", &fields).is_ok());
    assert_eq!(db.find_cl("x").unwrap().get_number_of_data(), 0);
    assert!(db.find_cl_immute("x").is_ok());
    assert_eq!(db.find_cl_immute("y").err(), Some(DbError::UnknownCollection));
}

#[test]
fn registry_operations_by_name() {
    let mut db = RustDB::new();
    let _ = db.create_table("student", &new_student_fields());
    assert_eq!(db.append("student", &new_sort_entry(0, "Ada", 24)), Ok(()));
    assert_eq!(db.append("student", &new_sort_entry(1, "Joey", 25)), Ok(()));
    assert_eq!(db.append("teacher", &new_sort_entry(1, "Joey", 25)), Err(DbError::UnknownCollection));
    let mut bad = TableEntry::new();
    bad.insert("gender".to_owned(), "female".to_owned());
    assert_eq!(db.append("student", &bad), Err(DbError::SchemaViolation));

    let mut t = TableEntry::new();
    t.insert("age".to_owned(), "25".to_owned());
    let mut a = TableEntry::new();
    a.insert("age".to_owned(), "24".to_owned());
    assert_eq!(db.update_in("student", &t, &a), Ok(1));
    assert_eq!(db.find_in("student", &t), Ok(vec![]));
    assert_eq!(db.find_in("student", &a).unwrap().len(), 2);
    assert_eq!(db.delete_in("student", &a), Ok(2));
    assert_eq!(db.delete_in("student", &a), Ok(0));
    assert_eq!(db.find_cl("student").unwrap().get_number_of_data(), 0);
    assert_eq!(db.names(), vec!["student".to_owned()]);
}

#[test]
fn snapshot_round_trip_keeps_everything() {
    let mut db = RustDB::new();
    let _ = db.create_table("student", &new_student_fields());
    let _ = db.create_table("other", &new_other_fields());
    let _ = db.append("student", &new_sort_entry(0, "Ada", 24));
    let _ = db.append("student", &new_sort_entry(1, "Jo \"ey\"\n", 25));
    let _ = db.append("student", &new_sort_entry(1, "Jo \"ey\"\n", 25));

    let text = db.save_text();
    let back = RustDB::load_text(&text).unwrap();
    assert_eq!(back.names(), db.names());
    for name in ["student", "other"] {
        let c1 = db.find_cl(name).unwrap();
        let c2 = back.find_cl(name).unwrap();
        assert!(c1 == c2);
        assert_eq!(c1.get_number_of_data(), c2.get_number_of_data());
        let all = TableEntry::new();
        assert_eq!(c1.find(&all), c2.find(&all));
    }
}

#[test]
fn snapshot_rows_rebuild_the_registry() {
    let mut db = RustDB::new();
    let _ = db.create_table("student", &new_student_fields());
    let _ = db.append("student", &new_sort_entry(0, "Ada", 24));
    let rows = db.to_snapshot();
    assert_eq!(rows.len(), 1);
    assert_eq!(rows[0].0, "student");
    assert_eq!(rows[0].2.len(), 1);
    let back = RustDB::from_snapshot(&rows).unwrap();
    let all = TableEntry::new();
    assert_eq!(back.find_in("student", &all), Ok(vec![new_sort_entry(0, "Ada", 24)]));

    let mut twice = rows.clone();
    twice.push(rows[0].clone());
    assert_eq!(RustDB::from_snapshot(&twice).err(), Some(DbError::DuplicateCollection));

    let bad: Vec<(String, Vec<String>, Vec<Vec<(String, String)>>)> =
        vec![("t".to_owned(), vec!["id".to_owned()], vec![vec![("age".to_owned(), "3".to_owned())]])];
    assert_eq!(RustDB::from_snapshot(&bad).err(), Some(DbError::SchemaViolation));
}

#[test]
fn load_text_refuses_what_does_not_decode() {
    assert_eq!(RustDB::load_text("not json").err(), Some(DbError::PersistenceFailure));
    let empty = RustDB::load_text("[]").unwrap();
    assert!(empty.names().is_empty());
}

#[test]
fn load_text_refuses_deep_nesting() {
    let deep = "[".repeat(100_000);
    assert_eq!(RustDB::load_text(&deep).err(), Some(DbError::PersistenceFailure));
    let just_over = format!("{}{}", "[".repeat(65), "]".repeat(65));
    assert_eq!(RustDB::load_text(&just_over).err(), Some(DbError::PersistenceFailure));
}

#[test]
fn load_text_ignores_brackets_inside_strings() {
    let mut db = RustDB::new();
    let mut fields = FieldSet::new();
    fields.insert("k".to_owned());
    let _ = db.create_table("t", &fields);
    let mut e = TableEntry::new();
    e.insert("k".to_owned(), "[".repeat(200) + "\"{");
    let _ = db.append("t", &e);
    let back = RustDB::load_text(&db.save_text()).unwrap();
    assert_eq!(back.find_in("t", &TableEntry::new()), Ok(vec![e]));
}

#[test]
fn load_text_rebuilds_decoded_rows() {
    let text = "[[\"a\",[\"x\"],[[[\"x\",\"1\"]]]],[\"b\",[],[]]]";
    let db = RustDB::load_text(text).unwrap();
    assert_eq!(db.names(), vec!["a".to_owned(), "b".to_owned()]);
    let twice = "[[\"a\",[],[]],[\"a\",[],[]]]";
    assert_eq!(RustDB::load_text(twice).err(), Some(DbError::DuplicateCollection));
}

#[test]
fn from_snapshot_reports_the_first_offending_row() {
    let bad_record = vec![vec![("age".to_owned(), "3".to_owned())]];
    let schema_first: Vec<(String, Vec<String>, Vec<Vec<(String, String)>>)> = vec![
        ("t".to_owned(), vec!["id".to_owned()], bad_record.clone()),
        ("t".to_owned(), vec!["id".to_owned()], vec![]),
    ];
    assert_eq!(RustDB::from_snapshot(&schema_first).err(), Some(DbError::SchemaViolation));
    let duplicate_first: Vec<(String, Vec<String>, Vec<Vec<(String, String)>>)> = vec![
        ("t".to_owned(), vec!["id".to_owned()], vec![]),
        ("t".to_owned(), vec!["id".to_owned()], bad_record),
    ];
    assert_eq!(RustDB::from_snapshot(&duplicate_first).err(), Some(DbError::DuplicateCollection));
}
