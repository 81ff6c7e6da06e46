//! Properties of the store that hold across calls.
use vstd::prelude::*;
use crate::collection::{CollectionView, RecordView, kept, lemma_filter_push, selected};
use crate::record::record_matches;
use crate::registry::empty_collection;

verus! {

broadcast use vstd::seq_lib::group_to_multiset_ensures, vstd::multiset::group_multiset_axioms;

proof fn lemma_split_last(rs: Seq<RecordView>, t: RecordView)
    requires
        rs.len() > 0,
    ensures
        rs.drop_last().push(rs.last()) == rs,
        selected(rs, t) == if record_matches(rs.last(), t) {
            selected(rs.drop_last(), t).push(rs.last())
        } else {
            selected(rs.drop_last(), t)
        },
        kept(rs, t) == if !record_matches(rs.last(), t) {
            kept(rs.drop_last(), t).push(rs.last())
        } else {
            kept(rs.drop_last(), t)
        },
{
    assert(rs.drop_last().push(rs.last()) =~= rs);
    lemma_filter_push(rs.drop_last(), rs.last(), |r: RecordView| record_matches(r, t));
    lemma_filter_push(rs.drop_last(), rs.last(), |r: RecordView| !record_matches(r, t));
}

/// The empty template selects every record, in order: a query with no
/// conditions returns all the records that were inserted, as many as there
/// are.
pub proof fn lemma_empty_template_selects_all(rs: Seq<RecordView>)
    ensures
        selected(rs, Map::empty()) == rs,
        selected(rs, Map::empty()).to_multiset() == rs.to_multiset(),
        selected(rs, Map::empty()).len() == rs.len(),
    decreases rs.len(),
{
    if rs.len() > 0 {
        lemma_empty_template_selects_all(rs.drop_last());
        lemma_split_last(rs, Map::empty());
    }
}

/// A query returns exactly the records that match its template: every record
/// it returns matches, and every stored record that matches is returned, also
/// one that holds keys the template does not mention.
pub proof fn lemma_find_selects_matches(rs: Seq<RecordView>, t: RecordView)
    ensures
        forall|i: int| 0 <= i < selected(rs, t).len() ==> record_matches(#[trigger] selected(rs, t)[i], t),
        forall|r: RecordView| rs.contains(r) && record_matches(r, t) ==> #[trigger] selected(rs, t).contains(r),
        forall|r: RecordView| #[trigger] selected(rs, t).contains(r) ==> rs.contains(r),
        forall|r: RecordView| t.submap_of(r) ==> #[trigger] record_matches(r, t),
{
    let p = |r: RecordView| record_matches(r, t);
    assert forall|i: int| 0 <= i < selected(rs, t).len() implies record_matches(#[trigger] selected(rs, t)[i], t) by {
        rs.lemma_filter_pred(p, i);
    }
    assert forall|r: RecordView| rs.contains(r) && record_matches(r, t) implies #[trigger] selected(rs, t).contains(r) by {
        let i = choose|i: int| 0 <= i < rs.len() && rs[i] == r;
        rs.lemma_filter_contains(p, i);
    }
    assert forall|r: RecordView| #[trigger] selected(rs, t).contains(r) implies rs.contains(r) by {
        rs.lemma_filter_contains_rev(p, r);
    }
    assert forall|r: RecordView| t.submap_of(r) implies #[trigger] record_matches(r, t) by {
        assert forall|k: Seq<char>| #[trigger] t.contains_key(k) implies r.contains_key(k) && r[k] == t[k] by {
            assert(t.dom().contains(k));
        }
    }
}

/// A delete removes exactly what a query with the same template returns:
/// the records that stay and the records removed together make up the old
/// records; afterwards the template matches nothing, so a second delete
/// removes none and changes nothing.
pub proof fn lemma_delete_removes_selection(rs: Seq<RecordView>, t: RecordView)
    ensures
        kept(rs, t).to_multiset().add(selected(rs, t).to_multiset()) == rs.to_multiset(),
        kept(rs, t).len() + selected(rs, t).len() == rs.len(),
        selected(kept(rs, t), t).len() == 0,
        kept(kept(rs, t), t) == kept(rs, t),
    decreases rs.len(),
{
    if rs.len() == 0 {
        assert(kept(rs, t).to_multiset().add(selected(rs, t).to_multiset()) =~= rs.to_multiset());
    } else {
        let d = rs.drop_last();
        let x = rs.last();
        lemma_delete_removes_selection(d, t);
        lemma_split_last(rs, t);
        if record_matches(x, t) {
            assert(kept(rs, t).to_multiset().add(selected(rs, t).to_multiset()) =~= rs.to_multiset());
        } else {
            lemma_split_last(kept(rs, t), t);
            assert(kept(rs, t).drop_last() =~= kept(d, t));
            assert(kept(rs, t).to_multiset().add(selected(rs, t).to_multiset()) =~= rs.to_multiset());
        }
    }
}

/// Two deletes give the same records whichever runs first.
pub proof fn lemma_deletes_commute(rs: Seq<RecordView>, t1: RecordView, t2: RecordView)
    ensures
        kept(kept(rs, t1), t2) == kept(kept(rs, t2), t1),
    decreases rs.len(),
{
    if rs.len() > 0 {
        let d = rs.drop_last();
        let x = rs.last();
        lemma_deletes_commute(d, t1, t2);
        lemma_split_last(rs, t1);
        lemma_split_last(rs, t2);
        if !record_matches(x, t1) {
            lemma_split_last(kept(rs, t1), t2);
            assert(kept(rs, t1).drop_last() =~= kept(d, t1));
        }
        if !record_matches(x, t2) {
            lemma_split_last(kept(rs, t2), t1);
            assert(kept(rs, t2).drop_last() =~= kept(d, t2));
        }
    }
}

/// Two appends leave the same records, as a multiset, and the same count,
/// whichever runs first.
pub proof fn lemma_appends_commute(rs: Seq<RecordView>, a: RecordView, b: RecordView)
    ensures
        rs.push(a).push(b).to_multiset() == rs.push(b).push(a).to_multiset(),
        rs.push(a).push(b).len() == rs.push(b).push(a).len(),
{
    assert(rs.push(a).push(b).to_multiset() =~= rs.push(b).push(a).to_multiset());
}

/// Appends of the same records, in whatever order they were let through,
/// leave the same records as a multiset and the same count.
pub proof fn lemma_appends_any_order(rs: Seq<RecordView>, xs: Seq<RecordView>, ys: Seq<RecordView>)
    requires
        xs.to_multiset() == ys.to_multiset(),
    ensures
        (rs + xs).to_multiset() == (rs + ys).to_multiset(),
        (rs + xs).len() == (rs + ys).len(),
{
    vstd::seq_lib::lemma_multiset_commutative(rs, xs);
    vstd::seq_lib::lemma_multiset_commutative(rs, ys);
    assert(xs.len() == xs.to_multiset().len());
    assert(ys.len() == ys.to_multiset().len());
}

/// Names in the registry: after a create the name is taken, so a second
/// create of it fails; after a delete it is free, so a second delete fails
/// and a create of it succeeds again.
pub proof fn lemma_registry_names(
    db: Map<Seq<char>, CollectionView>,
    n: Seq<char>,
    fields: Set<Seq<char>>,
)
    ensures
        !db.contains_key(n) ==> db.insert(n, empty_collection(fields)).contains_key(n),
        !db.remove(n).contains_key(n),
        db.contains_key(n) ==> db.remove(n).insert(n, empty_collection(fields))[n].records.len() == 0,
        forall|k: Seq<char>| k != n ==> (db.remove(n).contains_key(k) == db.contains_key(k)),
{
}

} // verus!
