use vstd::prelude::*;
use crate::error::DbError;
use crate::fields::FieldSet;
use crate::record::{pairs_view, record_matches, TableEntry};

verus! {

/// A record as the collection sees it.
pub type RecordView = Map<Seq<char>, Seq<char>>;

/// Whether every key of `t` is a declared field.
pub open spec fn conforms(t: RecordView, fields: Set<Seq<char>>) -> bool {
    t.dom().subset_of(fields)
}

/// The records of `rs` that match `t`, in order.
pub open spec fn selected(rs: Seq<RecordView>, t: RecordView) -> Seq<RecordView> {
    rs.filter(|r: RecordView| record_matches(r, t))
}

/// The records of `rs` that do not match `t`, in order.
pub open spec fn kept(rs: Seq<RecordView>, t: RecordView) -> Seq<RecordView> {
    rs.filter(|r: RecordView| !record_matches(r, t))
}

/// A record after an update: matched on the template, then merged with the
/// assignment.
pub open spec fn updated_record(r: RecordView, t: RecordView, a: RecordView) -> RecordView {
    if record_matches(r, t) {
        r.union_prefer_right(a)
    } else {
        r
    }
}

/// `rs` after an update, each record matched against its own old value.
pub open spec fn updated(rs: Seq<RecordView>, t: RecordView, a: RecordView) -> Seq<RecordView> {
    rs.map_values(|r: RecordView| updated_record(r, t, a))
}

/// Records given as lists of pairs.
pub open spec fn pair_records(rs: Seq<Vec<(String, String)>>) -> Seq<RecordView> {
    rs.map_values(|p: Vec<(String, String)>| pairs_view(p@))
}

/// The abstract state of a collection: its declared fields and its records.
pub struct CollectionView {
    pub fields: Set<Seq<char>>,
    pub records: Seq<RecordView>,
}

impl CollectionView {
    /// Every record uses declared fields only.
    pub open spec fn well_formed(self) -> bool {
        forall|i: int| 0 <= i < self.records.len() ==> conforms(#[trigger] self.records[i], self.fields)
    }
}

pub proof fn lemma_filter_push(s: Seq<RecordView>, x: RecordView, p: spec_fn(RecordView) -> bool)
    ensures
        s.push(x).filter(p) == if p(x) {
            s.filter(p).push(x)
        } else {
            s.filter(p)
        },
{
    reveal(Seq::filter);
    assert(s.push(x).drop_last() =~= s);
}

/// One stored record, with a mark that callers may set and read.
#[derive(Debug)]
pub struct ItemNode {
    valid: bool,
    content: TableEntry,
}

impl View for ItemNode {
    type V = RecordView;

    closed spec fn view(&self) -> RecordView {
        self.content@
    }
}

impl ItemNode {
    pub closed spec fn spec_valid(&self) -> bool {
        self.valid
    }

    /// A marked node holding a copy of `entry`.
    pub fn new(entry: &TableEntry) -> (r: ItemNode)
        ensures
            r@ == entry@,
            r.spec_valid(),
    {
        ItemNode { valid: true, content: entry.duplicate() }
    }

    pub fn is_valid(&self) -> (r: bool)
        ensures
            r == self.spec_valid(),
    {
        self.valid
    }

    pub fn set_valid(&mut self, set_value: bool)
        ensures
            final(self).spec_valid() == set_value,
            final(self)@ == old(self)@,
    {
        self.valid = set_value;
    }

    /// The record held by the node.
    pub fn get_content(&self) -> (r: &TableEntry)
        ensures
            r@ == self@,
    {
        &self.content
    }

    /// Overwrites a field that the record already has; a field it lacks is
    /// an error and changes nothing.
    pub fn update_field(&mut self, field_name: String, field_value: String) -> (r: Result<(), &'static str>)
        ensures
            r is Ok <==> old(self)@.contains_key(field_name@),
            r is Ok ==> final(self)@ == old(self)@.insert(field_name@, field_value@),
            r is Err ==> final(self)@ == old(self)@,
            final(self).spec_valid() == old(self).spec_valid(),
    {
        if self.content.get(&field_name).is_some() {
            self.content.insert(field_name, field_value);
            Ok(())
        } else {
            Err("Such field does not exist!")
        }
    }

    /// Whether the record matches `template`.
    pub fn matched(&self, template: &TableEntry) -> (r: bool)
        ensures
            r == record_matches(self@, template@),
    {
        self.content.includes(template)
    }

    /// Writes every key of `template` into the record.
    pub fn modify(&mut self, template: &TableEntry)
        ensures
            final(self)@ == old(self)@.union_prefer_right(template@),
            final(self).spec_valid() == old(self).spec_valid(),
    {
        self.content.merge(template);
    }
}

/// A named table: a fixed set of declared fields and the records stored
/// under them, in insertion order.
#[derive(Debug)]
pub struct Collection {
    fields: FieldSet,
    entries: Vec<ItemNode>,
}

impl View for Collection {
    type V = CollectionView;

    closed spec fn view(&self) -> CollectionView {
        CollectionView { fields: self.fields@, records: self.entries@.map_values(|n: ItemNode| n@) }
    }
}

impl Collection {
    /// An empty collection over `fields`.
    pub fn new(fields: &FieldSet) -> (r: Collection)
        ensures
            r@.fields == fields@,
            r@.records == Seq::<RecordView>::empty(),
            r@.well_formed(),
    {
        let r = Collection { fields: fields.clone_set(), entries: Vec::new() };
        assert(r@.records =~= Seq::<RecordView>::empty());
        r
    }

    /// The number of records.
    pub fn get_number_of_data(&self) -> (r: usize)
        ensures
            r == self@.records.len(),
    {
        self.entries.len()
    }

    /// The declared fields.
    pub fn get_fields(&self) -> (r: &FieldSet)
        ensures
            r@ == self@.fields,
    {
        &self.fields
    }

    /// The stored records, in order.
    pub fn get_entries(&self) -> (r: &Vec<ItemNode>)
        ensures
            r@.map_values(|n: ItemNode| n@) == self@.records,
    {
        &self.entries
    }

    /// The records as lists of pairs, in order.
    pub fn snapshot_records(&self) -> (r: Vec<Vec<(String, String)>>)
        ensures
            pair_records(r@) == self@.records,
    {
        let mut out: Vec<Vec<(String, String)>> = Vec::new();
        let mut i: usize = 0;
        while i < self.entries.len()
            invariant
                i <= self.entries@.len(),
                out@.len() == i,
                forall|j: int| 0 <= j < i ==> pairs_view(#[trigger] out@[j]@) == self.entries@[j]@,
            decreases self.entries@.len() - i,
        {
            out.push(self.entries[i].get_content().to_pairs());
            i = i + 1;
        }
        assert(pair_records(out@) =~= self@.records);
        out
    }

    /// Whether every key of `target` is a declared field.
    fn is_valid(&self, target: &TableEntry) -> (r: bool)
        ensures
            r == conforms(target@, self@.fields),
    {
        target.keys_within(&self.fields)
    }

    /// Appends a copy of `desired`, unless it names an undeclared field.
    pub fn insert(&mut self, desired: &TableEntry) -> (r: Result<(), DbError>)
        ensures
            final(self)@.fields == old(self)@.fields,
            conforms(desired@, old(self)@.fields) ==> r is Ok && final(self)@.records == old(self)@.records.push(
                desired@,
            ),
            !conforms(desired@, old(self)@.fields) ==> r == Err::<(), DbError>(DbError::SchemaViolation)
                && final(self)@.records == old(self)@.records,
            old(self)@.well_formed() ==> final(self)@.well_formed(),
    {
        if self.is_valid(desired) {
            self.entries.push(ItemNode::new(desired));
            assert(self@.records =~= old(self)@.records.push(desired@));
            Ok(())
        } else {
            Err(DbError::SchemaViolation)
        }
    }

    /// Copies of the records that match `target`, in order; `None` when
    /// `target` names an undeclared field.
    pub fn find(&self, target: &TableEntry) -> (r: Option<Vec<TableEntry>>)
        ensures
            r is Some <==> conforms(target@, self@.fields),
            r matches Some(v) ==> v@.map_values(|e: TableEntry| e@) == selected(self@.records, target@),
    {
        if !self.is_valid(target) {
            return None;
        }
        let ghost rs = self@.records;
        let mut res: Vec<TableEntry> = Vec::new();
        let mut i: usize = 0;
        while i < self.entries.len()
            invariant
                i <= self.entries@.len(),
                rs == self@.records,
                res@.map_values(|e: TableEntry| e@) == selected(rs.take(i as int), target@),
            decreases self.entries@.len() - i,
        {
            proof {
                assert(rs.take(i + 1) =~= rs.take(i as int).push(rs[i as int]));
                lemma_filter_push(rs.take(i as int), rs[i as int], |r: RecordView| record_matches(r, target@));
            }
            if self.entries[i].matched(target) {
                res.push(self.entries[i].get_content().duplicate());
                assert(res@.map_values(|e: TableEntry| e@) =~= selected(rs.take(i as int), target@).push(rs[i as int]));
            }
            i = i + 1;
        }
        assert(rs.take(rs.len() as int) =~= rs);
        Some(res)
    }

    /// Merges `desired` into every record that matches `target`, and returns
    /// how many there were; `None`, with nothing changed, when either names
    /// an undeclared field.
    pub fn update(&mut self, target: &TableEntry, desired: &TableEntry) -> (r: Option<usize>)
        ensures
            final(self)@.fields == old(self)@.fields,
            r is Some <==> conforms(target@, old(self)@.fields) && conforms(desired@, old(self)@.fields),
            r is None ==> final(self)@.records == old(self)@.records,
            r matches Some(n) ==> n == selected(old(self)@.records, target@).len()
                && final(self)@.records == updated(old(self)@.records, target@, desired@),
            old(self)@.well_formed() ==> final(self)@.well_formed(),
    {
        if !self.is_valid(target) || !self.is_valid(desired) {
            return None;
        }
        let ghost rs = old(self)@.records;
        let mut count: usize = 0;
        let mut i: usize = 0;
        while i < self.entries.len()
            invariant
                i <= self.entries@.len(),
                self.entries@.len() == rs.len(),
                self.fields@ == old(self)@.fields,
                rs == old(self)@.records,
                count == selected(rs.take(i as int), target@).len(),
                forall|j: int| 0 <= j < i ==> #[trigger] self.entries@[j]@ == updated_record(rs[j], target@, desired@),
                forall|j: int| i <= j < self.entries@.len() ==> #[trigger] self.entries@[j]@ == rs[j],
            decreases self.entries@.len() - i,
        {
            proof {
                assert(rs.take(i + 1) =~= rs.take(i as int).push(rs[i as int]));
                lemma_filter_push(rs.take(i as int), rs[i as int], |r: RecordView| record_matches(r, target@));
                assert(self.entries@[i as int]@ == rs[i as int]);
                rs.take(i as int).lemma_filter_len(|r: RecordView| record_matches(r, target@));
            }
            if self.entries[i].matched(target) {
                self.entries[i].modify(desired);
                count = count + 1;
            }
            i = i + 1;
        }
        assert(self@.records =~= updated(rs, target@, desired@));
        assert(rs.take(rs.len() as int) =~= rs);
        proof {
            if old(self)@.well_formed() {
                assert forall|j: int| 0 <= j < self@.records.len() implies conforms(#[trigger] self@.records[j], self@.fields) by {
                    assert(conforms(rs[j], self@.fields));
                }
            }
        }
        Some(count)
    }

    /// Removes every record that matches `target` and returns how many there
    /// were; the others keep their order. `None`, with nothing changed, when
    /// `target` names an undeclared field.
    pub fn delete(&mut self, target: &TableEntry) -> (r: Option<usize>)
        ensures
            final(self)@.fields == old(self)@.fields,
            r is Some <==> conforms(target@, old(self)@.fields),
            r is None ==> final(self)@.records == old(self)@.records,
            r matches Some(n) ==> n == selected(old(self)@.records, target@).len()
                && final(self)@.records == kept(old(self)@.records, target@),
            old(self)@.well_formed() ==> final(self)@.well_formed(),
    {
        if !self.is_valid(target) {
            return None;
        }
        let ghost rs = old(self)@.records;
        let mut count: usize = 0;
        let mut index: usize = 0;
        let ghost mut seen: int = 0;
        let len0 = self.entries.len();
        assert(rs.len() == len0);
        while index < self.entries.len()
            invariant
                index <= self.entries@.len(),
                0 <= seen <= rs.len(),
                self.entries@.len() - index == rs.len() - seen,
                rs.len() <= usize::MAX,
                self.fields@ == old(self)@.fields,
                rs == old(self)@.records,
                count == selected(rs.take(seen), target@).len(),
                self@.records.take(index as int) == kept(rs.take(seen), target@),
                self@.records.skip(index as int) == rs.skip(seen),
            decreases self.entries@.len() - index,
        {
            proof {
                assert(self@.records.skip(index as int)[0] == rs.skip(seen)[0]);
                assert(self@.records[index as int] == self.entries@[index as int]@);
                assert(rs.take(seen + 1) =~= rs.take(seen).push(rs[seen]));
                lemma_filter_push(rs.take(seen), rs[seen], |r: RecordView| record_matches(r, target@));
                lemma_filter_push(rs.take(seen), rs[seen], |r: RecordView| !record_matches(r, target@));
                rs.take(seen).lemma_filter_len(|r: RecordView| record_matches(r, target@));
                assert(self.entries@[index as int]@ == rs[seen]);
            }
            if self.entries[index].matched(target) {
                let ghost before = self@.records;
                self.entries.remove(index);
                count = count + 1;
                proof {
                    assert(self@.records.take(index as int) =~= before.take(index as int));
                    assert(self@.records.skip(index as int) =~= before.skip(index + 1));
                    assert(rs.skip(seen + 1) =~= rs.skip(seen).skip(1));
                    assert(before.skip(index + 1) =~= before.skip(index as int).skip(1));
                }
            } else {
                let ghost before = self@.records;
                index = index + 1;
                proof {
                    assert(self@.records.take(index as int) =~= before.take(index - 1).push(rs[seen]));
                    assert(rs.skip(seen + 1) =~= rs.skip(seen).skip(1));
                    assert(before.skip(index as int) =~= before.skip(index - 1).skip(1));
                }
            }
            proof {
                seen = seen + 1;
            }
        }
        proof {
            assert(self@.records.skip(index as int).len() == 0);
            assert(seen == rs.len());
            assert(rs.take(rs.len() as int) =~= rs);
            assert(self@.records =~= self@.records.take(index as int));
            if old(self)@.well_formed() {
                let p = |r: RecordView| !record_matches(r, target@);
                assert forall|j: int| 0 <= j < self@.records.len() implies conforms(#[trigger] self@.records[j], self@.fields) by {
                    assert(rs.filter(p).contains(self@.records[j]));
                    rs.lemma_filter_contains_rev(p, self@.records[j]);
                }
            }
        }
        Some(count)
    }
}

/// Two collections are equal when they declare the same fields; their
/// records are not compared.
impl PartialEq for Collection {
    fn eq(&self, other: &Collection) -> (r: bool)
        ensures
            r == (self@.fields == other@.fields),
    {
        self.fields == other.fields
    }
}

impl vstd::std_specs::cmp::PartialEqSpecImpl for Collection {
    open spec fn obeys_eq_spec() -> bool {
        true
    }

    open spec fn eq_spec(&self, other: &Collection) -> bool {
        self@.fields == other@.fields
    }
}

} // verus!
