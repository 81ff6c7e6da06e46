use rustdb::dispatch::{execute, Reply, Verb};
use rustdb::error::DbError;
use rustdb::record::TableEntry;
use rustdb::registry::RustDB;
use rustdb::request::Request;

fn req(header: &str, lines: &[&str]) -> Request {
    let lines: Vec<String> = lines.iter().map(|l| l.to_string()).collect();
    Request::new(header, &lines).unwrap()
}

fn run(db: &mut RustDB, header: &str, lines: &[&str]) -> Reply {
    execute(db, &req(header, lines))
}

fn payload(r: &Reply) -> String {
    r.to_payload()
}

#[test]
fn request_needs_verb_and_collection() {
    assert_eq!(Request::new("PUTLIST\r\n", &vec![]).err(), Some(DbError::MalformedRequest));
    assert_eq!(Request::new("", &vec![]).err(), Some(DbError::MalformedRequest));
    let r = req("  GET   student extra\r\n", &["id 0\r\n"]);
    assert_eq!(r.get_command(), "GET");
    assert_eq!(r.get_collection(), "student");
}

#[test]
fn attributes_are_key_value_lines() {
    let r = req("GET student", &[" id  0 \r\n", "name Ada\r\n"]);
    let mut expected = TableEntry::new();
    expected.insert("id".to_owned(), "0".to_owned());
    expected.insert("name".to_owned(), "Ada".to_owned());
    assert_eq!(r.get_attributes(), Ok(expected));
    let bad = req("GET student", &["id\r\n"]);
    assert_eq!(bad.get_attributes(), Err(DbError::MalformedRequest));
    let three = req("GET student", &["id 0 1\r\n"]);
    assert_eq!(three.get_attributes(), Err(DbError::MalformedRequest));
}

#[test]
fn parameters_are_field_names() {
    let r = req("PUTLIST student", &["id\r\n", "name\r\n", "id\r\n"]);
    let fields = r.get_parameters();
    assert_eq!(fields.to_vec().len(), 2);
    assert!(fields.contains(&"name".to_owned()));
}

#[test]
fn update_clauses_are_split_on_semicolons() {
    let r = req("UPDATE student", &["age 25;name Joey;\r\n", "age 24;;\r\n"]);
    let (object, desired) = r.get_object_desired().unwrap();
    let mut o = TableEntry::new();
    o.insert("age".to_owned(), "25".to_owned());
    o.insert("name".to_owned(), "Joey".to_owned());
    let mut d = TableEntry::new();
    d.insert("age".to_owned(), "24".to_owned());
    assert_eq!(object, o);
    assert_eq!(desired, d);
    assert_eq!(req("UPDATE student", &["age 25"]).get_object_desired().err(), Some(DbError::MalformedRequest));
    assert_eq!(
        req("UPDATE student", &["age;", "age 1"]).get_object_desired().err(),
        Some(DbError::MalformedRequest)
    );
}

#[test]
fn verbs_parse_and_know_whether_they_mutate() {
    assert_eq!(Verb::parse(&"PUTLIST".to_owned()), Some(Verb::PutList));
    assert_eq!(Verb::parse(&"SHOWDB".to_owned()), Some(Verb::ShowDb));
    assert_eq!(Verb::parse(&"putlist".to_owned()), None);
    assert!(Verb::Append.is_mutating());
    assert!(!Verb::Get.is_mutating());
}

#[test]
fn dispatch_runs_a_session() {
    let mut db = RustDB::new();
    let r = run(&mut db, "PUTLIST student", &["id", "name", "age"]);
    assert_eq!(payload(&r), "\"Success\"");
    let r = run(&mut db, "PUTLIST student", &["id"]);
    assert_eq!(payload(&r), "\"Collection name already exists.\"");
    assert!(matches!(run(&mut db, "APPEND student", &["id 0", "name Ada", "age 24"]), Reply::Appended));
    assert!(matches!(run(&mut db, "APPEND student", &["id 1", "name Joey", "age 25"]), Reply::Appended));
    let r = run(&mut db, "APPEND student", &["gender f"]);
    assert!(matches!(r, Reply::Failed(DbError::SchemaViolation)));
    assert_eq!(payload(&r), "\"Error\"");
    let r = run(&mut db, "APPEND teacher", &["id 0"]);
    assert!(matches!(r, Reply::Failed(DbError::UnknownCollection)));
    let r = run(&mut db, "APPEND student", &["id"]);
    assert!(matches!(r, Reply::Failed(DbError::MalformedRequest)));

    let r = run(&mut db, "GET student", &["age 25"]);
    assert_eq!(payload(&r), "[{\"age\":\"25\",\"id\":\"1\",\"name\":\"Joey\"}]");
    let r = run(&mut db, "UPDATE student", &["age 25;", "age 24;"]);
    assert!(matches!(r, Reply::Count(1)));
    assert_eq!(payload(&r), "1");
    let r = run(&mut db, "DELETE student", &["age 24"]);
    assert!(matches!(r, Reply::Count(2)));
    let r = run(&mut db, "GET student", &[]);
    assert_eq!(payload(&r), "[]");

    let r = run(&mut db, "GETLIST student", &[]);
    assert_eq!(payload(&r), "[[\"student\",[\"id\",\"name\",\"age\"],[]]]");
    let _ = run(&mut db, "APPEND student", &["id 3", "name Mia", "age 9"]);
    let r = run(&mut db, "SHOWDB x", &[]);
    assert_eq!(payload(&r), "Collection: student\nid name age\nid=3 name=Mia age=9\n");
    let _ = run(&mut db, "DELETE student", &[]);

    let r = run(&mut db, "FROB student", &[]);
    assert_eq!(payload(&r), "\"Unsupport query type\"");
    let r = run(&mut db, "DELETELIST student", &[]);
    assert_eq!(payload(&r), "\"Collection has been deleted\"");
    let r = run(&mut db, "DELETELIST student", &[]);
    assert_eq!(payload(&r), "\"Collection name does not exist.\"");
    let r = run(&mut db, "GETLIST student", &[]);
    assert!(matches!(r, Reply::Failed(DbError::UnknownCollection)));
}

#[test]
fn payload_text_is_escaped_json() {
    let mut db = RustDB::new();
    let _ = run(&mut db, "PUTLIST t", &["k"]);
    let _ = run(&mut db, "APPEND t", &["k a\"b"]);
    let r = run(&mut db, "GET t", &["k a\"b"]);
    assert_eq!(payload(&r), "[{\"k\":\"a\\\"b\"}]");
    assert_eq!(payload(&Reply::Count(1234)), "1234");
    assert_eq!(payload(&Reply::Failed(DbError::MalformedRequest)), "\"Malformed request\"");
}

#[test]
fn update_clauses_keep_the_first_two_words() {
    let r = req("UPDATE student", &["age 25 extra;name Joey", "age 24 x y"]);
    let (object, desired) = r.get_object_desired().unwrap();
    let mut o = TableEntry::new();
    o.insert("age".to_owned(), "25".to_owned());
    o.insert("name".to_owned(), "Joey".to_owned());
    let mut d = TableEntry::new();
    d.insert("age".to_owned(), "24".to_owned());
    assert_eq!(object, o);
    assert_eq!(desired, d);
    let empty = req("UPDATE student", &["", ";;"]);
    assert_eq!(empty.get_object_desired(), Ok((TableEntry::new(), TableEntry::new())));
}
