use vstd::prelude::*;
use crate::collection::{CollectionView, conforms, pair_records};
use crate::error::DbError;
use crate::fields::FieldSet;
use crate::collection::RecordView;
use crate::json::{
    MAX_NESTING, PlainRow, SnapshotRow, decode_snapshot, encode_snapshot, json_decoded, json_snapshot, max_nesting,
    nesting_within, pair_rows, snapshot_rows,
};
use crate::record::pairs_view;
use vstd::string::StringSliceAdditionalSpecFns;
use crate::record::TableEntry;
use crate::registry::RustDB;

verus! {

/// The collection that one snapshot row describes.
pub open spec fn row_collection(row: SnapshotRow) -> CollectionView {
    CollectionView { fields: row.1@.map_values(|s: String| s@).to_set(), records: pair_records(row.2@) }
}

/// The registry that snapshot rows describe; a later row for a name wins.
pub open spec fn snapshot_map(rows: Seq<SnapshotRow>) -> Map<Seq<char>, CollectionView>
    decreases rows.len(),
{
    if rows.len() == 0 {
        Map::empty()
    } else {
        snapshot_map(rows.drop_last()).insert(rows.last().0@, row_collection(rows.last()))
    }
}

/// A record given as plain pairs; a later pair for a key wins.
pub open spec fn plain_pairs_view(ps: Seq<(Seq<char>, Seq<char>)>) -> RecordView
    decreases ps.len(),
{
    if ps.len() == 0 {
        Map::empty()
    } else {
        plain_pairs_view(ps.drop_last()).insert(ps.last().0, ps.last().1)
    }
}

/// The collection that one plain row describes.
pub open spec fn plain_row_collection(row: PlainRow) -> CollectionView {
    CollectionView {
        fields: row.1.to_set(),
        records: row.2.map_values(|ps: Seq<(Seq<char>, Seq<char>)>| plain_pairs_view(ps)),
    }
}

/// The registry that plain rows describe; a later row for a name wins.
pub open spec fn plain_snapshot_map(rows: Seq<PlainRow>) -> Map<Seq<char>, CollectionView>
    decreases rows.len(),
{
    if rows.len() == 0 {
        Map::empty()
    } else {
        plain_snapshot_map(rows.drop_last()).insert(rows.last().0, plain_row_collection(rows.last()))
    }
}

/// Plain rows that a registry can be rebuilt from: names distinct, and every
/// record within its row's fields.
pub open spec fn plain_snapshot_ok(rows: Seq<PlainRow>) -> bool {
    &&& forall|i: int, j: int| 0 <= i < j < rows.len() ==> #[trigger] rows[i].0 != #[trigger] rows[j].0
    &&& forall|i: int| 0 <= i < rows.len() ==> plain_row_collection(#[trigger] rows[i]).well_formed()
}

proof fn lemma_plain_pairs(p: Seq<(String, String)>)
    ensures
        pairs_view(p) == plain_pairs_view(p.map_values(|q: (String, String)| (q.0@, q.1@))),
    decreases p.len(),
{
    if p.len() > 0 {
        lemma_plain_pairs(p.drop_last());
        let f = |q: (String, String)| (q.0@, q.1@);
        assert(p.map_values(f).drop_last() =~= p.drop_last().map_values(f));
    }
}

proof fn lemma_plain_row(row: SnapshotRow)
    ensures
        row_collection(row) == plain_row_collection(
            (row.0@, row.1@.map_values(|s: String| s@), pair_rows(row.2@)),
        ),
{
    let pr = (row.0@, row.1@.map_values(|s: String| s@), pair_rows(row.2@));
    assert forall|k: int| 0 <= k < row.2@.len() implies #[trigger] pair_records(row.2@)[k]
        == plain_row_collection(pr).records[k] by {
        lemma_plain_pairs(row.2@[k]@);
    }
    assert(pair_records(row.2@) =~= plain_row_collection(pr).records);
}

/// Rows and their plain values describe the same registry and are
/// acceptable alike.
pub proof fn lemma_plain_rows(rows: Seq<SnapshotRow>)
    ensures
        plain_snapshot_ok(snapshot_rows(rows)) == snapshot_ok(rows),
        plain_snapshot_map(snapshot_rows(rows)) == snapshot_map(rows),
    decreases rows.len(),
{
    let pr = snapshot_rows(rows);
    assert forall|i: int| 0 <= i < rows.len() implies #[trigger] plain_row_collection(pr[i]) == row_collection(rows[i]) by {
        lemma_plain_row(rows[i]);
    }
    assert forall|i: int| 0 <= i < rows.len() implies #[trigger] pr[i].0 == rows[i].0@ by {}
    if rows.len() > 0 {
        lemma_plain_rows(rows.drop_last());
        assert(snapshot_rows(rows.drop_last()) =~= pr.drop_last());
        assert(plain_row_collection(pr[rows.len() - 1]) == row_collection(rows[rows.len() - 1]));
    }
    if snapshot_ok(rows) {
        assert forall|i: int, j: int| 0 <= i < j < pr.len() implies #[trigger] pr[i].0 != #[trigger] pr[j].0 by {
            assert(rows[i].0@ != rows[j].0@);
        }
        assert forall|i: int| 0 <= i < pr.len() implies plain_row_collection(#[trigger] pr[i]).well_formed() by {
            assert(row_collection(rows[i]).well_formed());
        }
    }
    if plain_snapshot_ok(pr) {
        assert forall|i: int, j: int| 0 <= i < j < rows.len() implies #[trigger] rows[i].0@ != #[trigger] rows[j].0@ by {
            assert(pr[i].0 != pr[j].0);
        }
        assert forall|i: int| 0 <= i < rows.len() implies row_collection(#[trigger] rows[i]).well_formed() by {
            assert(plain_row_collection(pr[i]).well_formed());
        }
    }
}

/// The failure that rebuilding a registry from `rows` meets first, if any:
/// rows are taken in order, and a row fails with `DuplicateCollection` when
/// an earlier row has its name, else with `SchemaViolation` when one of its
/// records uses a field the row does not declare.
pub open spec fn snapshot_error(rows: Seq<SnapshotRow>) -> Option<DbError>
    decreases rows.len(),
{
    if rows.len() == 0 {
        None
    } else if snapshot_error(rows.drop_last()) is Some {
        snapshot_error(rows.drop_last())
    } else if exists|j: int| 0 <= j < rows.len() - 1 && #[trigger] rows[j].0@ == rows.last().0@ {
        Some(DbError::DuplicateCollection)
    } else if !row_collection(rows.last()).well_formed() {
        Some(DbError::SchemaViolation)
    } else {
        None
    }
}

/// `snapshot_error` over plain rows.
pub open spec fn plain_snapshot_error(rows: Seq<PlainRow>) -> Option<DbError>
    decreases rows.len(),
{
    if rows.len() == 0 {
        None
    } else if plain_snapshot_error(rows.drop_last()) is Some {
        plain_snapshot_error(rows.drop_last())
    } else if exists|j: int| 0 <= j < rows.len() - 1 && #[trigger] rows[j].0 == rows.last().0 {
        Some(DbError::DuplicateCollection)
    } else if !plain_row_collection(rows.last()).well_formed() {
        Some(DbError::SchemaViolation)
    } else {
        None
    }
}

/// Rows are acceptable exactly when rebuilding meets no failure.
pub proof fn lemma_snapshot_error_ok(rows: Seq<SnapshotRow>)
    ensures
        snapshot_error(rows) is None <==> snapshot_ok(rows),
    decreases rows.len(),
{
    if rows.len() > 0 {
        let d = rows.drop_last();
        let n = rows.len() - 1;
        lemma_snapshot_error_ok(d);
        if snapshot_ok(rows) {
            assert forall|a: int, b: int| 0 <= a < b < d.len() implies #[trigger] d[a].0@ != #[trigger] d[b].0@ by {
                assert(rows[a].0@ != rows[b].0@);
            }
            assert forall|a: int| 0 <= a < d.len() implies row_collection(#[trigger] d[a]).well_formed() by {
                assert(row_collection(rows[a]).well_formed());
            }
            assert forall|j: int| 0 <= j < n implies #[trigger] rows[j].0@ != rows.last().0@ by {
                assert(rows[j].0@ != rows[n].0@);
            }
            assert(row_collection(rows[n]).well_formed());
        }
        if snapshot_error(rows) is None {
            assert forall|a: int, b: int| 0 <= a < b < rows.len() implies #[trigger] rows[a].0@ != #[trigger] rows[b].0@ by {
                if b < n {
                    assert(d[a].0@ != d[b].0@);
                } else {
                    if rows[a].0@ == rows[b].0@ {
                        assert(rows[a].0@ == rows.last().0@);
                    }
                }
            }
            assert forall|a: int| 0 <= a < rows.len() implies row_collection(#[trigger] rows[a]).well_formed() by {
                if a < n {
                    assert(row_collection(d[a]).well_formed());
                }
            }
        }
    }
}

/// A failure met on a prefix of the rows is the failure of all of them.
pub proof fn lemma_snapshot_error_prefix(rows: Seq<SnapshotRow>, k: int)
    requires
        0 <= k <= rows.len(),
        snapshot_error(rows.take(k)) is Some,
    ensures
        snapshot_error(rows) == snapshot_error(rows.take(k)),
    decreases rows.len() - k,
{
    if k < rows.len() {
        assert(rows.take(k + 1).drop_last() =~= rows.take(k));
        lemma_snapshot_error_prefix(rows, k + 1);
    } else {
        assert(rows.take(k) =~= rows);
    }
}

/// Rows and their plain values meet the same first failure.
pub proof fn lemma_plain_error(rows: Seq<SnapshotRow>)
    ensures
        plain_snapshot_error(snapshot_rows(rows)) == snapshot_error(rows),
    decreases rows.len(),
{
    if rows.len() > 0 {
        let pr = snapshot_rows(rows);
        let n = rows.len() - 1;
        lemma_plain_error(rows.drop_last());
        assert(snapshot_rows(rows.drop_last()) =~= pr.drop_last());
        lemma_plain_row(rows[n]);
        assert(pr[n].0 == rows[n].0@);
        if exists|j: int| 0 <= j < rows.len() - 1 && #[trigger] rows[j].0@ == rows.last().0@ {
            let j = choose|j: int| 0 <= j < rows.len() - 1 && #[trigger] rows[j].0@ == rows.last().0@;
            assert(pr[j].0 == pr.last().0);
        }
        if exists|j: int| 0 <= j < pr.len() - 1 && #[trigger] pr[j].0 == pr.last().0 {
            let j = choose|j: int| 0 <= j < pr.len() - 1 && #[trigger] pr[j].0 == pr.last().0;
            assert(rows[j].0@ == rows.last().0@);
        }
    }
}

/// No name occurs in two rows.
pub open spec fn distinct_names(rows: Seq<SnapshotRow>) -> bool {
    forall|i: int, j: int| 0 <= i < j < rows.len() ==> #[trigger] rows[i].0@ != #[trigger] rows[j].0@
}

/// Rows that a registry can be rebuilt from: names distinct, and every
/// record within its row's fields.
pub open spec fn snapshot_ok(rows: Seq<SnapshotRow>) -> bool {
    &&& distinct_names(rows)
    &&& forall|i: int| 0 <= i < rows.len() ==> row_collection(#[trigger] rows[i]).well_formed()
}

/// `rows` lists the collections of `db`, one row per name, in the order of
/// `db`'s names.
pub open spec fn snapshot_of(db: RustDB, rows: Seq<SnapshotRow>) -> bool {
    &&& rows.len() == db.name_seq().len()
    &&& forall|j: int|
        0 <= j < rows.len() ==> (#[trigger] rows[j]).0@ == db.name_seq()[j] && row_collection(rows[j])
            == db@[db.name_seq()[j]]
}

pub proof fn lemma_snapshot_map_dom(rows: Seq<SnapshotRow>, k: Seq<char>)
    ensures
        snapshot_map(rows).contains_key(k) <==> exists|j: int| 0 <= j < rows.len() && #[trigger] rows[j].0@ == k,
    decreases rows.len(),
{
    if rows.len() > 0 {
        let d = rows.drop_last();
        lemma_snapshot_map_dom(d, k);
        if snapshot_map(rows).contains_key(k) && rows.last().0@ != k {
            let j = choose|j: int| 0 <= j < d.len() && #[trigger] d[j].0@ == k;
            assert(rows[j].0@ == k);
        }
        if snapshot_map(rows).contains_key(k) && rows.last().0@ == k {
            assert(rows[rows.len() - 1].0@ == k);
        }
        if exists|j: int| 0 <= j < rows.len() && #[trigger] rows[j].0@ == k {
            let j = choose|j: int| 0 <= j < rows.len() && #[trigger] rows[j].0@ == k;
            if j < rows.len() - 1 {
                assert(d[j].0@ == k);
            }
        }
    }
}

pub proof fn lemma_snapshot_map_at(rows: Seq<SnapshotRow>, j: int)
    requires
        distinct_names(rows),
        0 <= j < rows.len(),
    ensures
        snapshot_map(rows).contains_key(rows[j].0@),
        snapshot_map(rows)[rows[j].0@] == row_collection(rows[j]),
    decreases rows.len(),
{
    if j < rows.len() - 1 {
        let d = rows.drop_last();
        assert forall|a: int, b: int| 0 <= a < b < d.len() implies #[trigger] d[a].0@ != #[trigger] d[b].0@ by {
            assert(rows[a].0@ != rows[b].0@);
        }
        lemma_snapshot_map_at(d, j);
        assert(rows[j].0@ != rows[rows.len() - 1].0@);
    }
}

/// Writing a registry out as rows and reading the rows back gives the same
/// registry: the rows are acceptable to `from_snapshot`, and the registry
/// they describe is the one they were taken from.
pub proof fn lemma_snapshot_round_trip(db: RustDB, rows: Seq<SnapshotRow>)
    requires
        db.wf(),
        snapshot_of(db, rows),
    ensures
        snapshot_ok(rows),
        snapshot_map(rows) == db@,
{
    db.lemma_names();
    db.lemma_wf_view();
    let ns = db.name_seq();
    assert forall|a: int, b: int| 0 <= a < b < rows.len() implies #[trigger] rows[a].0@ != #[trigger] rows[b].0@ by {
        assert(rows[a].0@ == ns[a]);
        assert(rows[b].0@ == ns[b]);
    }
    assert forall|i: int| 0 <= i < rows.len() implies row_collection(#[trigger] rows[i]).well_formed() by {
        assert(rows[i].0@ == ns[i]);
        assert(ns.to_set().contains(ns[i]));
    }
    assert forall|k: Seq<char>| #[trigger] snapshot_map(rows).contains_key(k) == db@.contains_key(k) by {
        lemma_snapshot_map_dom(rows, k);
        if db@.contains_key(k) {
            assert(ns.to_set().contains(k));
            let j = choose|j: int| 0 <= j < ns.len() && ns[j] == k;
            assert(rows[j].0@ == k);
        }
        if snapshot_map(rows).contains_key(k) {
            let j = choose|j: int| 0 <= j < rows.len() && #[trigger] rows[j].0@ == k;
            assert(ns[j] == k);
            assert(ns.to_set().contains(k));
        }
    }
    assert forall|k: Seq<char>| #[trigger] snapshot_map(rows).contains_key(k) implies snapshot_map(rows)[k] == db@[k] by {
        lemma_snapshot_map_dom(rows, k);
        let j = choose|j: int| 0 <= j < rows.len() && #[trigger] rows[j].0@ == k;
        lemma_snapshot_map_at(rows, j);
    }
    assert(snapshot_map(rows) =~= db@);
}

impl RustDB {
    /// The registry as rows: for each name, in creation order, its field
    /// names and its records as pairs.
    pub fn to_snapshot(&self) -> (r: Vec<SnapshotRow>)
        requires
            self.wf(),
        ensures
            snapshot_of(*self, r@),
            snapshot_ok(r@),
            snapshot_map(r@) == self@,
    {
        let names = self.names();
        proof {
            self.lemma_names();
        }
        let ghost ns = self.name_seq();
        let mut out: Vec<SnapshotRow> = Vec::new();
        let mut j: usize = 0;
        while j < names.len()
            invariant
                self.wf(),
                ns == self.name_seq(),
                names@.map_values(|s: String| s@) == ns,
                ns.to_set() == self@.dom(),
                j <= names@.len(),
                out@.len() == j,
                forall|a: int| 0 <= a < j ==> (#[trigger] out@[a]).0@ == ns[a] && row_collection(out@[a]) == self@[ns[a]],
            decreases names@.len() - j,
        {
            let name: &String = &names[j];
            assert(name@ == ns[j as int]);
            assert(ns.to_set().contains(ns[j as int]));
            match self.find_cl(name.as_str()) {
                Ok(c) => {
                    let row: SnapshotRow = (name.clone(), c.get_fields().to_vec(), c.snapshot_records());
                    out.push(row);
                },
                Err(_) => {
                    proof {
                        assert(false);
                    }
                },
            }
            j = j + 1;
        }
        proof {
            lemma_snapshot_round_trip(*self, out@);
        }
        out
    }

    /// Rebuilds a registry from rows; repeated names give
    /// `DuplicateCollection`, a record outside its row's fields gives
    /// `SchemaViolation`.
    pub fn from_snapshot(rows: &Vec<SnapshotRow>) -> (r: Result<RustDB, DbError>)
        ensures
            r is Ok <==> snapshot_ok(rows@),
            r matches Ok(db) ==> db.wf() && db@ == snapshot_map(rows@),
            r matches Err(e) ==> snapshot_error(rows@) == Some(e),
    {
        let mut db = RustDB::new();
        let mut i: usize = 0;
        while i < rows.len()
            invariant
                i <= rows@.len(),
                db.wf(),
                db@ == snapshot_map(rows@.take(i as int)),
                snapshot_ok(rows@.take(i as int)),
            decreases rows@.len() - i,
        {
            let row: &SnapshotRow = &rows[i];
            let ghost pre = rows@.take(i as int);
            proof {
                assert(rows@.take(i + 1).drop_last() =~= pre);
                assert(rows@.take(i + 1).last() == rows@[i as int]);
            }
            let fields = FieldSet::from_names(&row.1);
            let name: &str = row.0.as_str();
            let ghost before = db@;
            match db.create_table(name, &fields) {
                Ok(_) => {
                    assert(!before.contains_key(row.0@));
                },
                Err(e) => {
                    proof {
                        lemma_snapshot_map_dom(pre, row.0@);
                        let j = choose|j: int| 0 <= j < pre.len() && #[trigger] pre[j].0@ == row.0@;
                        assert(rows@[j].0@ == rows@[i as int].0@);
                        lemma_snapshot_error_ok(pre);
                        let t = rows@.take(i + 1);
                        assert(t[j].0@ == t.last().0@);
                        assert(snapshot_error(t) == Some(DbError::DuplicateCollection));
                        lemma_snapshot_error_prefix(rows@, i + 1);
                    }
                    return Err(e);
                },
            }
            let records: &Vec<Vec<(String, String)>> = &row.2;
            assert(pair_records(records@.take(0)) =~= Seq::<crate::collection::RecordView>::empty());
            let mut k: usize = 0;
            while k < records.len()
                invariant
                    i < rows@.len(),
                    pre == rows@.take(i as int),
                    snapshot_ok(pre),
                    !snapshot_map(pre).contains_key(row.0@),
                    row == rows@[i as int],
                    records == row.2,
                    name@ == row.0@,
                    fields@ == row_collection(*row).fields,
                    k <= records@.len(),
                    db.wf(),
                    db@ == snapshot_map(pre).insert(
                        name@,
                        CollectionView { fields: fields@, records: pair_records(records@.take(k as int)) },
                    ),
                    forall|kk: int| 0 <= kk < k ==> conforms(#[trigger] pair_records(records@)[kk], fields@),
                decreases records@.len() - k,
            {
                let rec = TableEntry::from_pairs(&records[k]);
                proof {
                    assert(pair_records(records@.take(k + 1)) =~= pair_records(records@.take(k as int)).push(rec@));
                }
                match db.append(name, &rec) {
                    Ok(()) => {},
                    Err(e) => {
                        proof {
                            assert(pair_records(records@)[k as int] == rec@);
                            assert(db@.contains_key(name@));
                            assert(!conforms(rec@, fields@));
                            let rc = row_collection(rows@[i as int]);
                            assert(rc.records[k as int] == rec@);
                            assert(!conforms(rc.records[k as int], rc.fields));
                            assert(!row_collection(rows@[i as int]).well_formed());
                            lemma_snapshot_error_ok(pre);
                            lemma_snapshot_map_dom(pre, row.0@);
                            let t = rows@.take(i + 1);
                            assert forall|j: int| 0 <= j < t.len() - 1 implies #[trigger] t[j].0@ != t.last().0@ by {
                                assert(pre[j].0@ == t[j].0@);
                            }
                            assert(t.drop_last() =~= pre);
                            assert(t.last() == rows@[i as int]);
                            assert(snapshot_error(t) == Some(DbError::SchemaViolation));
                            lemma_snapshot_error_prefix(rows@, i + 1);
                        }
                        return Err(e);
                    },
                }
                k = k + 1;
            }
            proof {
                assert(records@.take(records@.len() as int) =~= records@);
                let next = rows@.take(i + 1);
                lemma_snapshot_map_dom(pre, row.0@);
                assert forall|a: int, b: int| 0 <= a < b < next.len() implies #[trigger] next[a].0@ != #[trigger] next[b].0@ by {
                    if b == i {
                        assert(pre[a].0@ == next[a].0@);
                    } else {
                        assert(pre[a].0@ != pre[b].0@);
                    }
                }
                assert forall|a: int| 0 <= a < next.len() implies row_collection(#[trigger] next[a]).well_formed() by {
                    if a < i {
                        assert(next[a] == pre[a]);
                    }
                }
            }
            i = i + 1;
        }
        assert(rows@.take(rows@.len() as int) =~= rows@);
        Ok(db)
    }

    /// The registry as JSON text, for writing to disk.
    pub fn save_text(&self) -> (r: String)
        requires
            self.wf(),
        ensures
            exists|rows: Seq<SnapshotRow>| snapshot_of(*self, rows) && r@ == json_snapshot(snapshot_rows(rows)),
    {
        let rows = self.to_snapshot();
        match encode_snapshot(&rows) {
            Ok(t) => t,
            Err(_) => {
                proof {
                    assert(false);
                }
                String::new()
            },
        }
    }

    /// A registry read back from JSON text. Text nested deeper than
    /// `MAX_NESTING`, or that does not decode as snapshot rows, gives
    /// `PersistenceFailure`; decoded rows are then rebuilt as
    /// `from_snapshot` does.
    pub fn load_text(text: &str) -> (r: Result<RustDB, DbError>)
        ensures
            max_nesting(text.spec_bytes()) > MAX_NESTING ==> r == Err::<RustDB, DbError>(DbError::PersistenceFailure),
            max_nesting(text.spec_bytes()) <= MAX_NESTING && json_decoded(text@) is None ==> r == Err::<
                RustDB,
                DbError,
            >(DbError::PersistenceFailure),
            max_nesting(text.spec_bytes()) <= MAX_NESTING && json_decoded(text@) is Some ==> {
                let v = json_decoded(text@).unwrap();
                &&& r is Ok <==> plain_snapshot_ok(v)
                &&& r matches Ok(db) ==> db.wf() && db@ == plain_snapshot_map(v)
                &&& r matches Err(e) ==> plain_snapshot_error(v) == Some(e)
            },
    {
        if !nesting_within(text, MAX_NESTING) {
            return Err(DbError::PersistenceFailure);
        }
        match decode_snapshot(text) {
            Ok(rows) => {
                proof {
                    lemma_plain_rows(rows@);
                    lemma_plain_error(rows@);
                }
                RustDB::from_snapshot(&rows)
            },
            Err(_) => Err(DbError::PersistenceFailure),
        }
    }
}

} // verus!
