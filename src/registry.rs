use vstd::prelude::*;
use crate::collection::{Collection, CollectionView, conforms, kept, selected, updated};
use crate::error::DbError;
use crate::fields::FieldSet;
use crate::record::TableEntry;

verus! {

/// A fresh collection over `fields`, as the registry sees it.
pub open spec fn empty_collection(fields: Set<Seq<char>>) -> CollectionView {
    CollectionView { fields, records: Seq::empty() }
}

/// The registry: collection name to collection, names unique.
#[derive(Debug)]
pub struct RustDB {
    names: Vec<String>,
    collections: Vec<Collection>,
}

impl View for RustDB {
    type V = Map<Seq<char>, CollectionView>;

    closed spec fn view(&self) -> Map<Seq<char>, CollectionView> {
        Map::new(
            |k: Seq<char>| exists|i: int| 0 <= i < self.names@.len() && #[trigger] self.names@[i]@ == k,
            |k: Seq<char>|
                self.collections@[choose|i: int| 0 <= i < self.names@.len() && #[trigger] self.names@[i]@ == k]@,
        )
    }
}

impl RustDB {
    /// Names and collections line up, and no name occurs twice.
    pub closed spec fn wf(&self) -> bool {
        &&& self.names@.len() == self.collections@.len()
        &&& forall|i: int, j: int|
            0 <= i < j < self.names@.len() ==> #[trigger] self.names@[i]@ != #[trigger] self.names@[j]@
        &&& forall|i: int| 0 <= i < self.collections@.len() ==> (#[trigger] self.collections@[i])@.well_formed()
    }

    /// The registered names, in the order they were created.
    pub closed spec fn name_seq(&self) -> Seq<Seq<char>> {
        self.names@.map_values(|s: String| s@)
    }

    proof fn lemma_lookup(&self, i: int)
        requires
            self.wf(),
            0 <= i < self.names@.len(),
        ensures
            self@.contains_key(self.names@[i]@),
            self@[self.names@[i]@] == self.collections@[i]@,
    {
        let k = self.names@[i]@;
        assert(0 <= i < self.names@.len() && self.names@[i]@ == k);
        let c = choose|c: int| 0 <= c < self.names@.len() && #[trigger] self.names@[c]@ == k;
        if c != i {
            if c < i {
                assert(self.names@[c]@ != self.names@[i]@);
            } else {
                assert(self.names@[i]@ != self.names@[c]@);
            }
        }
    }

    /// Every registered collection is well formed.
    pub proof fn lemma_wf_view(&self)
        requires
            self.wf(),
        ensures
            forall|k: Seq<char>| #[trigger] self@.contains_key(k) ==> self@[k].well_formed(),
    {
        assert forall|k: Seq<char>| #[trigger] self@.contains_key(k) implies self@[k].well_formed() by {
            let i = choose|i: int| 0 <= i < self.names@.len() && #[trigger] self.names@[i]@ == k;
            self.lemma_lookup(i);
        }
    }

    /// The names are distinct and are the keys of the map.
    pub proof fn lemma_names(&self)
        requires
            self.wf(),
        ensures
            self.name_seq().to_set() == self@.dom(),
            self.name_seq().no_duplicates(),
    {
        assert(self.name_seq().to_set() =~= self@.dom()) by {
            assert forall|k: Seq<char>| self.name_seq().to_set().contains(k) <==> self@.dom().contains(k) by {
                if self@.dom().contains(k) {
                    let a = choose|a: int| 0 <= a < self.names@.len() && #[trigger] self.names@[a]@ == k;
                    assert(self.name_seq()[a] == k);
                }
                if self.name_seq().contains(k) {
                    let a = choose|a: int| 0 <= a < self.name_seq().len() && self.name_seq()[a] == k;
                    assert(self.names@[a]@ == k);
                }
            }
        }
        assert forall|a: int, b: int| 0 <= a < self.name_seq().len() && 0 <= b < self.name_seq().len() && a != b
            implies self.name_seq()[a] != self.name_seq()[b] by {
            if a < b {
                assert(self.names@[a]@ != self.names@[b]@);
            } else {
                assert(self.names@[b]@ != self.names@[a]@);
            }
        }
    }

    /// An empty registry.
    pub fn new() -> (r: RustDB)
        ensures
            r.wf(),
            r@ == Map::<Seq<char>, CollectionView>::empty(),
    {
        let r = RustDB { names: Vec::new(), collections: Vec::new() };
        assert(r@ =~= Map::<Seq<char>, CollectionView>::empty());
        r
    }

    /// The position of `name`, if it is registered.
    fn index_of(&self, name: &String) -> (r: Option<usize>)
        requires
            self.wf(),
        ensures
            match r {
                Some(i) => i < self.names@.len() && self.names@[i as int]@ == name@ && self@.contains_key(name@)
                    && self@[name@] == self.collections@[i as int]@,
                None => !self@.contains_key(name@),
            },
    {
        let mut i: usize = 0;
        while i < self.names.len()
            invariant
                self.wf(),
                i <= self.names@.len(),
                forall|j: int| 0 <= j < i ==> #[trigger] self.names@[j]@ != name@,
            decreases self.names@.len() - i,
        {
            if self.names[i] == *name {
                proof {
                    self.lemma_lookup(i as int);
                }
                return Some(i);
            }
            i = i + 1;
        }
        None
    }

    /// Registers an empty collection over `fields` under `cl_name`; a name
    /// already in use is refused and nothing changes.
    pub fn create_table(&mut self, cl_name: &str, fields: &FieldSet) -> (r: Result<&Collection, DbError>)
        requires
            old(self).wf(),
        ensures
            final(self).wf(),
            old(self)@.contains_key(cl_name@) ==> r == Err::<&Collection, DbError>(DbError::DuplicateCollection)
                && final(self)@ == old(self)@,
            !old(self)@.contains_key(cl_name@) ==> r is Ok && final(self)@ == old(self)@.insert(
                cl_name@,
                empty_collection(fields@),
            ),
            r matches Ok(c) ==> c@ == empty_collection(fields@),
    {
        let name = cl_name.to_owned();
        if self.index_of(&name).is_some() {
            return Err(DbError::DuplicateCollection);
        }
        let ghost old_self = *self;
        let cl = Collection::new(fields);
        self.names.push(name);
        self.collections.push(cl);
        let n = self.collections.len() - 1;
        proof {
            let k0 = cl_name@;
            assert forall|j: int| 0 <= j < old_self.names@.len() implies #[trigger] old_self.names@[j]@ != k0 by {
                if old_self.names@[j]@ == k0 {
                    assert(old_self@.contains_key(k0));
                }
            }
            assert(self.wf()) by {
                assert forall|i: int, j: int| 0 <= i < j < self.names@.len() implies #[trigger] self.names@[i]@
                    != #[trigger] self.names@[j]@ by {
                    if j < n {
                        assert(old_self.names@[i] == self.names@[i]);
                        assert(old_self.names@[j] == self.names@[j]);
                    } else {
                        assert(old_self.names@[i] == self.names@[i]);
                    }
                }
                assert forall|j: int| 0 <= j < self.collections@.len() implies (#[trigger] self.collections@[j])@.well_formed() by {
                    if j < n {
                        assert(self.collections@[j] == old_self.collections@[j]);
                    }
                }
            }
            self.lemma_lookup(n as int);
            assert forall|k: Seq<char>| #[trigger] self@.contains_key(k) == old_self@.insert(k0, empty_collection(fields@)).contains_key(k) by {
                if old_self@.contains_key(k) {
                    let i = choose|i: int| 0 <= i < old_self.names@.len() && #[trigger] old_self.names@[i]@ == k;
                    assert(self.names@[i]@ == k);
                }
                if self@.contains_key(k) && k != k0 {
                    let i = choose|i: int| 0 <= i < self.names@.len() && #[trigger] self.names@[i]@ == k;
                    assert(old_self.names@[i]@ == k);
                }
            }
            assert forall|k: Seq<char>| #[trigger] self@.contains_key(k) implies self@[k] == old_self@.insert(k0, empty_collection(fields@))[k] by {
                if k != k0 {
                    let i = choose|i: int| 0 <= i < self.names@.len() && #[trigger] self.names@[i]@ == k;
                    assert(i < n);
                    self.lemma_lookup(i);
                    old_self.lemma_lookup(i);
                    assert(self.collections@[i] == old_self.collections@[i]);
                }
            }
            assert(self@ =~= old_self@.insert(k0, empty_collection(fields@)));
        }
        Ok(&self.collections[n])
    }

    /// When only the collection at `i` changed, the map changes at its name only.
    proof fn lemma_replaced(old_db: &RustDB, new_db: &RustDB, i: int)
        requires
            old_db.wf(),
            0 <= i < old_db.names@.len(),
            new_db.names@ == old_db.names@,
            new_db.collections@.len() == old_db.collections@.len(),
            forall|j: int| 0 <= j < old_db.collections@.len() && j != i ==> new_db.collections@[j] == old_db.collections@[j],
            new_db.collections@[i]@.well_formed(),
        ensures
            new_db.wf(),
            new_db@ == old_db@.insert(old_db.names@[i]@, new_db.collections@[i]@),
    {
        let k0 = old_db.names@[i]@;
        assert forall|j: int| 0 <= j < new_db.collections@.len() implies (#[trigger] new_db.collections@[j])@.well_formed() by {
            if j != i {
                assert(new_db.collections@[j] == old_db.collections@[j]);
            }
        }
        new_db.lemma_lookup(i);
        assert forall|k: Seq<char>| #[trigger] new_db@.contains_key(k) == old_db@.contains_key(k) by {
            if old_db@.contains_key(k) {
                let j = choose|j: int| 0 <= j < old_db.names@.len() && #[trigger] old_db.names@[j]@ == k;
                assert(new_db.names@[j]@ == k);
            }
            if new_db@.contains_key(k) {
                let j = choose|j: int| 0 <= j < new_db.names@.len() && #[trigger] new_db.names@[j]@ == k;
                assert(old_db.names@[j]@ == k);
            }
        }
        assert forall|k: Seq<char>| #[trigger] new_db@.contains_key(k) && k != k0 implies new_db@[k] == old_db@[k] by {
            let j = choose|j: int| 0 <= j < new_db.names@.len() && #[trigger] new_db.names@[j]@ == k;
            new_db.lemma_lookup(j);
            old_db.lemma_lookup(j);
        }
        old_db.lemma_lookup(i);
        assert(new_db@ =~= old_db@.insert(k0, new_db.collections@[i]@));
    }

    /// The collection registered as `cl_name`.
    pub fn find_cl(&self, cl_name: &str) -> (r: Result<&Collection, DbError>)
        requires
            self.wf(),
        ensures
            r is Ok <==> self@.contains_key(cl_name@),
            r matches Ok(c) ==> c@ == self@[cl_name@],
            r is Err ==> r == Err::<&Collection, DbError>(DbError::UnknownCollection),
    {
        let name = cl_name.to_owned();
        match self.index_of(&name) {
            Some(i) => Ok(&self.collections[i]),
            None => Err(DbError::UnknownCollection),
        }
    }

    /// The collection registered as `cl_name`, for reading.
    pub fn find_cl_immute(&self, cl_name: &str) -> (r: Result<&Collection, DbError>)
        requires
            self.wf(),
        ensures
            r is Ok <==> self@.contains_key(cl_name@),
            r matches Ok(c) ==> c@ == self@[cl_name@],
            r is Err ==> r == Err::<&Collection, DbError>(DbError::UnknownCollection),
    {
        self.find_cl(cl_name)
    }

    /// Removes the collection registered as `cl_name` with all its records;
    /// an unknown name is an error and changes nothing.
    pub fn delete_cl(&mut self, cl_name: &str) -> (r: Result<&'static str, DbError>)
        requires
            old(self).wf(),
        ensures
            final(self).wf(),
            r is Ok <==> old(self)@.contains_key(cl_name@),
            r is Ok ==> final(self)@ == old(self)@.remove(cl_name@),
            r is Err ==> r == Err::<&'static str, DbError>(DbError::UnknownCollection) && final(self)@ == old(self)@,
    {
        let name = cl_name.to_owned();
        match self.index_of(&name) {
            None => Err(DbError::UnknownCollection),
            Some(i) => {
                let ghost old_self = *self;
                self.names.remove(i);
                self.collections.remove(i);
                proof {
                    let k0 = cl_name@;
                    assert forall|a: int| 0 <= a < self.names@.len() implies #[trigger] self.names@[a] == old_self.names@[
                        if a < i { a } else { a + 1 }] by {}
                    assert forall|a: int| 0 <= a < self.names@.len() implies #[trigger] self.collections@[a] == old_self.collections@[
                        if a < i { a } else { a + 1 }] by {}
                    assert(self.wf()) by {
                        assert forall|a: int, b: int| 0 <= a < b < self.names@.len() implies #[trigger] self.names@[a]@
                            != #[trigger] self.names@[b]@ by {
                            let oa = if a < i { a } else { a + 1 };
                            let ob = if b < i { b } else { b + 1 };
                            assert(self.names@[a] == old_self.names@[oa]);
                            assert(self.names@[b] == old_self.names@[ob]);
                        }
                        assert forall|a: int| 0 <= a < self.collections@.len() implies (#[trigger] self.collections@[a])@.well_formed() by {
                            let oa = if a < i { a } else { a + 1 };
                            assert(self.collections@[a] == old_self.collections@[oa]);
                        }
                    }
                    assert forall|k: Seq<char>| #[trigger] self@.contains_key(k) == old_self@.remove(k0).contains_key(k) by {
                        if self@.contains_key(k) {
                            let a = choose|a: int| 0 <= a < self.names@.len() && #[trigger] self.names@[a]@ == k;
                            let oa = if a < i { a } else { a + 1 };
                            assert(old_self.names@[oa]@ == k);
                            assert(oa != i || k != k0);
                            if k == k0 {
                                assert(old_self.names@[i as int]@ == k0);
                                if oa < i {
                                    assert(old_self.names@[oa]@ != old_self.names@[i as int]@);
                                } else {
                                    assert(old_self.names@[i as int]@ != old_self.names@[oa]@);
                                }
                            }
                        }
                        if old_self@.contains_key(k) && k != k0 {
                            let oa = choose|a: int| 0 <= a < old_self.names@.len() && #[trigger] old_self.names@[a]@ == k;
                            let a = if oa < i { oa } else { oa - 1 };
                            assert(oa != i);
                            assert(self.names@[a]@ == k);
                        }
                    }
                    assert forall|k: Seq<char>| #[trigger] self@.contains_key(k) implies self@[k] == old_self@[k] by {
                        let a = choose|a: int| 0 <= a < self.names@.len() && #[trigger] self.names@[a]@ == k;
                        let oa = if a < i { a } else { a + 1 };
                        self.lemma_lookup(a);
                        old_self.lemma_lookup(oa);
                    }
                    assert(self@ =~= old_self@.remove(k0));
                }
                Ok("Collection has been deleted")
            },
        }
    }

    /// The registered names, each once, in the order they were created.
    pub fn names(&self) -> (r: Vec<String>)
        requires
            self.wf(),
        ensures
            r@.map_values(|s: String| s@) == self.name_seq(),
            self.name_seq().to_set() == self@.dom(),
            self.name_seq().no_duplicates(),
    {
        let mut out: Vec<String> = Vec::new();
        let mut i: usize = 0;
        while i < self.names.len()
            invariant
                i <= self.names@.len(),
                out@ == self.names@.take(i as int),
            decreases self.names@.len() - i,
        {
            out.push(self.names[i].clone());
            assert(self.names@.take(i + 1) =~= self.names@.take(i as int).push(self.names@[i as int]));
            i = i + 1;
        }
        assert(self.names@.take(self.names@.len() as int) =~= self.names@);
        proof {
            self.lemma_names();
        }
        out
    }

    /// Appends `record` to the collection `cl_name`.
    pub fn append(&mut self, cl_name: &str, record: &TableEntry) -> (r: Result<(), DbError>)
        requires
            old(self).wf(),
        ensures
            final(self).wf(),
            !old(self)@.contains_key(cl_name@) ==> r == Err::<(), DbError>(DbError::UnknownCollection)
                && final(self)@ == old(self)@,
            old(self)@.contains_key(cl_name@) && !conforms(record@, old(self)@[cl_name@].fields) ==> r == Err::<
                (),
                DbError,
            >(DbError::SchemaViolation) && final(self)@ == old(self)@,
            old(self)@.contains_key(cl_name@) && conforms(record@, old(self)@[cl_name@].fields) ==> r is Ok
                && final(self)@ == old(self)@.insert(
                cl_name@,
                CollectionView {
                    fields: old(self)@[cl_name@].fields,
                    records: old(self)@[cl_name@].records.push(record@),
                },
            ),
    {
        let name = cl_name.to_owned();
        match self.index_of(&name) {
            None => Err(DbError::UnknownCollection),
            Some(i) => {
                let ghost old_self = *self;
                assert(old_self.collections@[i as int]@.well_formed());
                let r = self.collections[i].insert(record);
                proof {
                    RustDB::lemma_replaced(&old_self, self, i as int);
                    if r is Err {
                        assert(self.collections@[i as int]@ =~= old_self.collections@[i as int]@);
                        assert(self@ =~= old_self@);
                    }
                }
                r
            },
        }
    }

    /// Copies of the records of `cl_name` that match `template`.
    pub fn find_in(&self, cl_name: &str, template: &TableEntry) -> (r: Result<Vec<TableEntry>, DbError>)
        requires
            self.wf(),
        ensures
            !self@.contains_key(cl_name@) ==> r == Err::<Vec<TableEntry>, DbError>(DbError::UnknownCollection),
            self@.contains_key(cl_name@) && !conforms(template@, self@[cl_name@].fields) ==> r == Err::<
                Vec<TableEntry>,
                DbError,
            >(DbError::SchemaViolation),
            self@.contains_key(cl_name@) && conforms(template@, self@[cl_name@].fields) ==> r is Ok,
            r matches Ok(v) ==> v@.map_values(|e: TableEntry| e@) == selected(self@[cl_name@].records, template@),
    {
        match self.find_cl(cl_name) {
            Err(e) => Err(e),
            Ok(c) => match c.find(template) {
                Some(v) => Ok(v),
                None => Err(DbError::SchemaViolation),
            },
        }
    }

    /// Merges `assignment` into the records of `cl_name` that match
    /// `template`, and returns how many there were.
    pub fn update_in(&mut self, cl_name: &str, template: &TableEntry, assignment: &TableEntry) -> (r: Result<usize, DbError>)
        requires
            old(self).wf(),
        ensures
            final(self).wf(),
            !old(self)@.contains_key(cl_name@) ==> r == Err::<usize, DbError>(DbError::UnknownCollection)
                && final(self)@ == old(self)@,
            old(self)@.contains_key(cl_name@) && !(conforms(template@, old(self)@[cl_name@].fields) && conforms(
                assignment@,
                old(self)@[cl_name@].fields,
            )) ==> r == Err::<usize, DbError>(DbError::SchemaViolation) && final(self)@ == old(self)@,
            old(self)@.contains_key(cl_name@) && conforms(template@, old(self)@[cl_name@].fields) && conforms(
                assignment@,
                old(self)@[cl_name@].fields,
            ) ==> r is Ok,
            r matches Ok(n) ==> n == selected(old(self)@[cl_name@].records, template@).len() && final(self)@
                == old(self)@.insert(
                cl_name@,
                CollectionView {
                    fields: old(self)@[cl_name@].fields,
                    records: updated(old(self)@[cl_name@].records, template@, assignment@),
                },
            ),
    {
        let name = cl_name.to_owned();
        match self.index_of(&name) {
            None => Err(DbError::UnknownCollection),
            Some(i) => {
                let ghost old_self = *self;
                assert(old_self.collections@[i as int]@.well_formed());
                let r = self.collections[i].update(template, assignment);
                proof {
                    RustDB::lemma_replaced(&old_self, self, i as int);
                    if r is None {
                        assert(self.collections@[i as int]@ =~= old_self.collections@[i as int]@);
                        assert(self@ =~= old_self@);
                    }
                }
                match r {
                    Some(n) => Ok(n),
                    None => Err(DbError::SchemaViolation),
                }
            },
        }
    }

    /// Removes the records of `cl_name` that match `template`, and returns
    /// how many there were.
    pub fn delete_in(&mut self, cl_name: &str, template: &TableEntry) -> (r: Result<usize, DbError>)
        requires
            old(self).wf(),
        ensures
            final(self).wf(),
            !old(self)@.contains_key(cl_name@) ==> r == Err::<usize, DbError>(DbError::UnknownCollection)
                && final(self)@ == old(self)@,
            old(self)@.contains_key(cl_name@) && !conforms(template@, old(self)@[cl_name@].fields) ==> r == Err::<
                usize,
                DbError,
            >(DbError::SchemaViolation) && final(self)@ == old(self)@,
            old(self)@.contains_key(cl_name@) && conforms(template@, old(self)@[cl_name@].fields) ==> r is Ok,
            r matches Ok(n) ==> n == selected(old(self)@[cl_name@].records, template@).len() && final(self)@
                == old(self)@.insert(
                cl_name@,
                CollectionView {
                    fields: old(self)@[cl_name@].fields,
                    records: kept(old(self)@[cl_name@].records, template@),
                },
            ),
    {
        let name = cl_name.to_owned();
        match self.index_of(&name) {
            None => Err(DbError::UnknownCollection),
            Some(i) => {
                let ghost old_self = *self;
                assert(old_self.collections@[i as int]@.well_formed());
                let r = self.collections[i].delete(template);
                proof {
                    RustDB::lemma_replaced(&old_self, self, i as int);
                    if r is None {
                        assert(self.collections@[i as int]@ =~= old_self.collections@[i as int]@);
                        assert(self@ =~= old_self@);
                    }
                }
                match r {
                    Some(n) => Ok(n),
                    None => Err(DbError::SchemaViolation),
                }
            },
        }
    }
}

} // verus!
