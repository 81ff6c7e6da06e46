use vstd::prelude::*;
use crate::collection::{CollectionView, conforms, kept, selected, updated};
use crate::error::DbError;
use crate::json::{
    SnapshotRow, decimal, encode_count, encode_records, encode_snapshot, encode_text, json_records,
    json_snapshot, json_text, snapshot_rows,
};
use crate::collection::pair_records;
use crate::record::TableEntry;
use crate::registry::{RustDB, empty_collection};
use crate::request::{Request, clauses_of, kv_clauses, kv_lines};
use crate::dump::dump_text;
use crate::snapshot::{row_collection, snapshot_of};

verus! {

/// The verbs of the protocol.
#[derive(Debug, Clone, Copy, PartialEq, Eq, Structural)]
pub enum Verb {
    PutList,
    DeleteList,
    GetList,
    Append,
    Update,
    Get,
    Delete,
    ShowDb,
}

/// The verb that a word names, if any.
pub open spec fn verb_of(s: Seq<char>) -> Option<Verb> {
    if s == "PUTLIST"@ {
        Some(Verb::PutList)
    } else if s == "DELETELIST"@ {
        Some(Verb::DeleteList)
    } else if s == "GETLIST"@ {
        Some(Verb::GetList)
    } else if s == "APPEND"@ {
        Some(Verb::Append)
    } else if s == "UPDATE"@ {
        Some(Verb::Update)
    } else if s == "GET"@ {
        Some(Verb::Get)
    } else if s == "DELETE"@ {
        Some(Verb::Delete)
    } else if s == "SHOWDB"@ {
        Some(Verb::ShowDb)
    } else {
        None
    }
}

impl Verb {
    /// Whether the verb may change the registry, so that the registry is
    /// written out after it.
    pub open spec fn spec_is_mutating(self) -> bool {
        match self {
            Verb::PutList | Verb::DeleteList | Verb::Append | Verb::Update | Verb::Delete => true,
            _ => false,
        }
    }

    pub fn is_mutating(&self) -> (r: bool)
        ensures
            r == self.spec_is_mutating(),
    {
        match self {
            Verb::PutList | Verb::DeleteList | Verb::Append | Verb::Update | Verb::Delete => true,
            _ => false,
        }
    }

    /// The verb named by `word`.
    pub fn parse(word: &String) -> (r: Option<Verb>)
        ensures
            r == verb_of(word@),
    {
        if *word == "PUTLIST".to_owned() {
            Some(Verb::PutList)
        } else if *word == "DELETELIST".to_owned() {
            Some(Verb::DeleteList)
        } else if *word == "GETLIST".to_owned() {
            Some(Verb::GetList)
        } else if *word == "APPEND".to_owned() {
            Some(Verb::Append)
        } else if *word == "UPDATE".to_owned() {
            Some(Verb::Update)
        } else if *word == "GET".to_owned() {
            Some(Verb::Get)
        } else if *word == "DELETE".to_owned() {
            Some(Verb::Delete)
        } else if *word == "SHOWDB".to_owned() {
            Some(Verb::ShowDb)
        } else {
            None
        }
    }
}

/// What a request produced, before it is put into words.
#[derive(Debug)]
pub enum Reply {
    /// A collection was created.
    Created,
    /// A collection was removed.
    Dropped,
    /// A record was appended.
    Appended,
    /// This many records were updated or deleted.
    Count(usize),
    /// The records that a query selected.
    Records(Vec<TableEntry>),
    /// Collections written out as snapshot rows.
    Listing(Vec<SnapshotRow>),
    /// A text dump of the whole registry.
    Dump(String),
    /// The request failed.
    Failed(DbError),
}

impl Reply {
    /// The text sent back to the client: JSON, as rustc_serialize writes it,
    /// except a dump, which goes as it is.
    pub fn to_payload(&self) -> (r: String)
        ensures
            match *self {
                Reply::Created => r@ == json_text("Success"@),
                Reply::Dropped => r@ == json_text("Collection has been deleted"@),
                Reply::Appended => r@ == json_text("Success"@),
                Reply::Count(n) => r@ == decimal(n as nat),
                Reply::Records(v) => r@ == json_records(v@.map_values(|e: TableEntry| e@)),
                Reply::Listing(rows) => r@ == json_snapshot(snapshot_rows(rows@)),
                Reply::Dump(text) => r@ == text@,
                Reply::Failed(e) => r@ == json_text(e.message_text()),
            },
    {
        let encoded = match self {
            Reply::Created => encode_text("Success"),
            Reply::Dropped => encode_text("Collection has been deleted"),
            Reply::Appended => encode_text("Success"),
            Reply::Count(n) => encode_count(*n),
            Reply::Records(v) => {
                let mut rows: Vec<Vec<(String, String)>> = Vec::new();
                let mut i: usize = 0;
                while i < v.len()
                    invariant
                        i <= v@.len(),
                        rows@.len() == i,
                        forall|j: int| 0 <= j < i ==> crate::record::pairs_view(#[trigger] rows@[j]@) == v@[j]@,
                    decreases v@.len() - i,
                {
                    rows.push(v[i].to_pairs());
                    i = i + 1;
                }
                assert(pair_records(rows@) =~= v@.map_values(|e: TableEntry| e@));
                encode_records(&rows)
            },
            Reply::Listing(rows) => encode_snapshot(rows),
            Reply::Dump(text) => Ok(text.clone()),
            Reply::Failed(e) => encode_text(e.message()),
        };
        match encoded {
            Ok(t) => t,
            Err(_) => {
                proof {
                    assert(false);
                }
                String::new()
            },
        }
    }
}

/// Carries out one request against the registry. Parameters are read only
/// after the verb is known; an unknown verb changes nothing.
pub fn execute(db: &mut RustDB, req: &Request) -> (r: Reply)
    requires
        old(db).wf(),
    ensures
        final(db).wf(),
        ({
            let n = req.collection_view();
            let ps = req.params_view();
            let before = old(db)@;
            let after = final(db)@;
            match verb_of(req.command_view()) {
                None => r == Reply::Failed(DbError::UnsupportedCommand) && after == before,
                Some(Verb::PutList) => if before.contains_key(n) {
                    r == Reply::Failed(DbError::DuplicateCollection) && after == before
                } else {
                    r == Reply::Created && after == before.insert(n, empty_collection(ps.to_set()))
                },
                Some(Verb::DeleteList) => if before.contains_key(n) {
                    r == Reply::Dropped && after == before.remove(n)
                } else {
                    r == Reply::Failed(DbError::UnknownCollection) && after == before
                },
                Some(Verb::GetList) => after == before && if before.contains_key(n) {
                    (r matches Reply::Listing(rows) && rows@.len() == 1 && rows@[0].0@ == n && row_collection(rows@[0])
                        == before[n])
                } else {
                    r == Reply::Failed(DbError::UnknownCollection)
                },
                Some(Verb::ShowDb) => after == before && (r matches Reply::Dump(t) && exists|rows: Seq<SnapshotRow>|
                    snapshot_of(*old(db), rows) && t@ == dump_text(rows)),
                Some(Verb::Append) => match kv_lines(ps) {
                    None => r == Reply::Failed(DbError::MalformedRequest) && after == before,
                    Some(e) => if !before.contains_key(n) {
                        r == Reply::Failed(DbError::UnknownCollection) && after == before
                    } else if !conforms(e, before[n].fields) {
                        r == Reply::Failed(DbError::SchemaViolation) && after == before
                    } else {
                        r == Reply::Appended && after == before.insert(
                            n,
                            CollectionView { fields: before[n].fields, records: before[n].records.push(e) },
                        )
                    },
                },
                Some(Verb::Get) => after == before && match kv_lines(ps) {
                    None => r == Reply::Failed(DbError::MalformedRequest),
                    Some(t) => if !before.contains_key(n) {
                        r == Reply::Failed(DbError::UnknownCollection)
                    } else if !conforms(t, before[n].fields) {
                        r == Reply::Failed(DbError::SchemaViolation)
                    } else {
                        (r matches Reply::Records(v) && v@.map_values(|e: TableEntry| e@) == selected(before[n].records, t))
                    },
                },
                Some(Verb::Delete) => match kv_lines(ps) {
                    None => r == Reply::Failed(DbError::MalformedRequest) && after == before,
                    Some(t) => if !before.contains_key(n) {
                        r == Reply::Failed(DbError::UnknownCollection) && after == before
                    } else if !conforms(t, before[n].fields) {
                        r == Reply::Failed(DbError::SchemaViolation) && after == before
                    } else {
                        r == Reply::Count(selected(before[n].records, t).len() as usize) && after == before.insert(
                            n,
                            CollectionView { fields: before[n].fields, records: kept(before[n].records, t) },
                        )
                    },
                },
                Some(Verb::Update) => if !(ps.len() >= 2 && kv_clauses(clauses_of(ps[0])) is Some && kv_clauses(
                    clauses_of(ps[1]),
                ) is Some) {
                    r == Reply::Failed(DbError::MalformedRequest) && after == before
                } else {
                    let t = kv_clauses(clauses_of(ps[0])).unwrap();
                    let a = kv_clauses(clauses_of(ps[1])).unwrap();
                    if !before.contains_key(n) {
                        r == Reply::Failed(DbError::UnknownCollection) && after == before
                    } else if !(conforms(t, before[n].fields) && conforms(a, before[n].fields)) {
                        r == Reply::Failed(DbError::SchemaViolation) && after == before
                    } else {
                        r == Reply::Count(selected(before[n].records, t).len() as usize) && after == before.insert(
                            n,
                            CollectionView { fields: before[n].fields, records: updated(before[n].records, t, a) },
                        )
                    }
                },
            }
        }),
{
    let command = req.get_command();
    let name = req.get_collection();
    let verb = Verb::parse(&command);
    match verb {
        None => Reply::Failed(DbError::UnsupportedCommand),
        Some(Verb::PutList) => {
            let fields = req.get_parameters();
            match db.create_table(name.as_str(), &fields) {
                Ok(_) => Reply::Created,
                Err(e) => Reply::Failed(e),
            }
        },
        Some(Verb::DeleteList) => match db.delete_cl(name.as_str()) {
            Ok(_) => Reply::Dropped,
            Err(e) => Reply::Failed(e),
        },
        Some(Verb::GetList) => match db.find_cl(name.as_str()) {
            Ok(c) => {
                let row: SnapshotRow = (name.clone(), c.get_fields().to_vec(), c.snapshot_records());
                let mut rows: Vec<SnapshotRow> = Vec::new();
                rows.push(row);
                Reply::Listing(rows)
            },
            Err(e) => Reply::Failed(e),
        },
        Some(Verb::ShowDb) => Reply::Dump(db.show_db()),
        Some(Verb::Append) => match req.get_attributes() {
            Err(e) => Reply::Failed(e),
            Ok(record) => match db.append(name.as_str(), &record) {
                Ok(()) => Reply::Appended,
                Err(e) => Reply::Failed(e),
            },
        },
        Some(Verb::Get) => match req.get_attributes() {
            Err(e) => Reply::Failed(e),
            Ok(template) => match db.find_in(name.as_str(), &template) {
                Ok(v) => Reply::Records(v),
                Err(e) => Reply::Failed(e),
            },
        },
        Some(Verb::Delete) => match req.get_attributes() {
            Err(e) => Reply::Failed(e),
            Ok(template) => match db.delete_in(name.as_str(), &template) {
                Ok(n) => Reply::Count(n),
                Err(e) => Reply::Failed(e),
            },
        },
        Some(Verb::Update) => match req.get_object_desired() {
            Err(e) => Reply::Failed(e),
            Ok((template, assignment)) => match db.update_in(name.as_str(), &template, &assignment) {
                Ok(n) => Reply::Count(n),
                Err(e) => Reply::Failed(e),
            },
        },
    }
}

} // verus!
