use vstd::prelude::*;
use crate::fields::FieldSet;

verus! {

/// The map that a list of key-value pairs stands for: a later pair for a key
/// shadows an earlier one.
pub open spec fn pairs_view(s: Seq<(String, String)>) -> Map<Seq<char>, Seq<char>>
    decreases s.len(),
{
    if s.len() == 0 {
        Map::empty()
    } else {
        pairs_view(s.drop_last()).insert(s.last().0@, s.last().1@)
    }
}

/// `s` with every pair whose key is `k` left out.
pub open spec fn without_key(s: Seq<(String, String)>, k: Seq<char>) -> Seq<(String, String)>
    decreases s.len(),
{
    if s.len() == 0 {
        s
    } else if s.last().0@ == k {
        without_key(s.drop_last(), k)
    } else {
        without_key(s.drop_last(), k).push(s.last())
    }
}

/// A record matches a template when it holds every key of the template with
/// the template's value; keys of the record that the template lacks are
/// ignored.
pub open spec fn record_matches(r: Map<Seq<char>, Seq<char>>, t: Map<Seq<char>, Seq<char>>) -> bool {
    forall|k: Seq<char>| #[trigger] t.contains_key(k) ==> r.contains_key(k) && r[k] == t[k]
}

pub proof fn lemma_pairs_view_push(s: Seq<(String, String)>, p: (String, String))
    ensures
        pairs_view(s.push(p)) == pairs_view(s).insert(p.0@, p.1@),
{
    assert(s.push(p).drop_last() =~= s);
}

pub proof fn lemma_pairs_view_dom(s: Seq<(String, String)>, k: Seq<char>)
    ensures
        pairs_view(s).contains_key(k) <==> exists|i: int| 0 <= i < s.len() && #[trigger] s[i].0@ == k,
    decreases s.len(),
{
    if s.len() > 0 {
        lemma_pairs_view_dom(s.drop_last(), k);
        if pairs_view(s).contains_key(k) {
            if s.last().0@ != k {
                let i = choose|i: int| 0 <= i < s.drop_last().len() && #[trigger] s.drop_last()[i].0@ == k;
                assert(s[i].0@ == k);
            } else {
                assert(s[s.len() - 1].0@ == k);
            }
        }
        if exists|i: int| 0 <= i < s.len() && #[trigger] s[i].0@ == k {
            let i = choose|i: int| 0 <= i < s.len() && #[trigger] s[i].0@ == k;
            if i < s.len() - 1 {
                assert(s.drop_last()[i].0@ == k);
            }
        }
    }
}

/// The value for a key is that of its last pair.
pub proof fn lemma_pairs_view_last(s: Seq<(String, String)>, i: int)
    requires
        0 <= i < s.len(),
        forall|j: int| i < j < s.len() ==> #[trigger] s[j].0@ != s[i].0@,
    ensures
        pairs_view(s).contains_key(s[i].0@),
        pairs_view(s)[s[i].0@] == s[i].1@,
    decreases s.len(),
{
    if i < s.len() - 1 {
        assert forall|j: int| i < j < s.drop_last().len() implies #[trigger] s.drop_last()[j].0@ != s.drop_last()[i].0@ by {
            assert(s[j].0@ != s[i].0@);
        }
        lemma_pairs_view_last(s.drop_last(), i);
        assert(s[s.len() - 1].0@ != s[i].0@);
    }
}

/// Replacing the last pair of a key changes that key's value only.
pub proof fn lemma_pairs_view_replace(s: Seq<(String, String)>, i: int, p: (String, String))
    requires
        0 <= i < s.len(),
        p.0@ == s[i].0@,
        forall|j: int| i < j < s.len() ==> #[trigger] s[j].0@ != s[i].0@,
    ensures
        pairs_view(s.update(i, p)) == pairs_view(s).insert(p.0@, p.1@),
    decreases s.len(),
{
    let u = s.update(i, p);
    if i == s.len() - 1 {
        assert(u.drop_last() =~= s.drop_last());
        assert(pairs_view(u) =~= pairs_view(s).insert(p.0@, p.1@));
    } else {
        assert(u.drop_last() =~= s.drop_last().update(i, p));
        assert forall|j: int| i < j < s.drop_last().len() implies #[trigger] s.drop_last()[j].0@ != s.drop_last()[i].0@ by {
            assert(s[j].0@ != s[i].0@);
        }
        lemma_pairs_view_replace(s.drop_last(), i, p);
        assert(s[s.len() - 1].0@ != s[i].0@);
        assert(pairs_view(u) =~= pairs_view(s).insert(p.0@, p.1@));
    }
}

pub proof fn lemma_without_key(s: Seq<(String, String)>, k: Seq<char>)
    ensures
        pairs_view(without_key(s, k)) == pairs_view(s).remove(k),
    decreases s.len(),
{
    if s.len() == 0 {
        assert(pairs_view(s).remove(k) =~= Map::empty());
    } else {
        lemma_without_key(s.drop_last(), k);
        if s.last().0@ == k {
            assert(pairs_view(s).remove(k) =~= pairs_view(s.drop_last()).remove(k));
        } else {
            lemma_pairs_view_push(without_key(s.drop_last(), k), s.last());
            assert(pairs_view(s).remove(k) =~= pairs_view(s.drop_last()).remove(k).insert(
                s.last().0@,
                s.last().1@,
            ));
        }
    }
}

/// One record: a flat map from field name to field value.
#[derive(Debug)]
pub struct TableEntry {
    pairs: Vec<(String, String)>,
}

impl View for TableEntry {
    type V = Map<Seq<char>, Seq<char>>;

    closed spec fn view(&self) -> Map<Seq<char>, Seq<char>> {
        pairs_view(self.pairs@)
    }
}

impl TableEntry {
    /// A record with no fields.
    pub fn new() -> (r: TableEntry)
        ensures
            r@ == Map::<Seq<char>, Seq<char>>::empty(),
    {
        TableEntry { pairs: Vec::new() }
    }

    /// A record holding the given pairs; a later pair for a key wins.
    pub fn from_pairs(pairs: &Vec<(String, String)>) -> (r: TableEntry)
        ensures
            r@ == pairs_view(pairs@),
    {
        let mut out: Vec<(String, String)> = Vec::new();
        let mut i: usize = 0;
        while i < pairs.len()
            invariant
                i <= pairs@.len(),
                out@ == pairs@.take(i as int),
            decreases pairs@.len() - i,
        {
            let k = pairs[i].0.clone();
            let v = pairs[i].1.clone();
            out.push((k, v));
            assert(pairs@.take(i + 1) =~= pairs@.take(i as int).push(pairs@[i as int]));
            i = i + 1;
        }
        assert(pairs@.take(pairs@.len() as int) =~= pairs@);
        TableEntry { pairs: out }
    }

    /// The record as a list of pairs, whose map is the record.
    pub fn to_pairs(&self) -> (r: Vec<(String, String)>)
        ensures
            pairs_view(r@) == self@,
    {
        let mut out: Vec<(String, String)> = Vec::new();
        let mut i: usize = 0;
        while i < self.pairs.len()
            invariant
                i <= self.pairs@.len(),
                out@ == self.pairs@.take(i as int),
            decreases self.pairs@.len() - i,
        {
            let k = self.pairs[i].0.clone();
            let v = self.pairs[i].1.clone();
            out.push((k, v));
            assert(self.pairs@.take(i + 1) =~= self.pairs@.take(i as int).push(self.pairs@[i as int]));
            i = i + 1;
        }
        assert(self.pairs@.take(self.pairs@.len() as int) =~= self.pairs@);
        out
    }

    /// A copy of the record.
    pub fn duplicate(&self) -> (r: TableEntry)
        ensures
            r@ == self@,
    {
        let pairs = self.to_pairs();
        TableEntry { pairs }
    }

    /// The position of the last pair whose key is `key`.
    fn last_index(&self, key: &String) -> (r: Option<usize>)
        ensures
            match r {
                Some(i) => i < self.pairs@.len() && self.pairs@[i as int].0@ == key@ && forall|j: int|
                    i < j < self.pairs@.len() ==> #[trigger] self.pairs@[j].0@ != key@,
                None => forall|j: int| 0 <= j < self.pairs@.len() ==> #[trigger] self.pairs@[j].0@ != key@,
            },
    {
        let mut i: usize = self.pairs.len();
        while i > 0
            invariant
                i <= self.pairs@.len(),
                forall|j: int| i <= j < self.pairs@.len() ==> #[trigger] self.pairs@[j].0@ != key@,
            decreases i,
        {
            if self.pairs[i - 1].0 == *key {
                return Some(i - 1);
            }
            i = i - 1;
        }
        None
    }

    /// The value stored under `key`, if any.
    pub fn get(&self, key: &String) -> (r: Option<&String>)
        ensures
            match r {
                Some(v) => self@.contains_key(key@) && v@ == self@[key@],
                None => !self@.contains_key(key@),
            },
    {
        match self.last_index(key) {
            Some(i) => {
                proof {
                    lemma_pairs_view_last(self.pairs@, i as int);
                }
                Some(&self.pairs[i].1)
            },
            None => {
                proof {
                    lemma_pairs_view_dom(self.pairs@, key@);
                }
                None
            },
        }
    }

    /// Sets `key` to `value`, adding the key when it is absent.
    pub fn insert(&mut self, key: String, value: String)
        ensures
            final(self)@ == old(self)@.insert(key@, value@),
    {
        match self.last_index(&key) {
            Some(i) => {
                proof {
                    lemma_pairs_view_replace(self.pairs@, i as int, (key, value));
                }
                self.pairs.set(i, (key, value));
            },
            None => {
                proof {
                    lemma_pairs_view_push(self.pairs@, (key, value));
                }
                self.pairs.push((key, value));
            },
        }
    }

    /// Drops `key` from the record.
    pub fn remove(&mut self, key: &String)
        ensures
            final(self)@ == old(self)@.remove(key@),
    {
        let mut out: Vec<(String, String)> = Vec::new();
        let mut i: usize = 0;
        while i < self.pairs.len()
            invariant
                i <= self.pairs@.len(),
                out@ == without_key(self.pairs@.take(i as int), key@),
            decreases self.pairs@.len() - i,
        {
            assert(self.pairs@.take(i + 1).drop_last() =~= self.pairs@.take(i as int));
            if self.pairs[i].0 != *key {
                let k = self.pairs[i].0.clone();
                let v = self.pairs[i].1.clone();
                out.push((k, v));
            }
            i = i + 1;
        }
        proof {
            assert(self.pairs@.take(self.pairs@.len() as int) =~= self.pairs@);
            lemma_without_key(self.pairs@, key@);
        }
        self.pairs = out;
    }

    /// Whether every key of `template` is in this record with the same value.
    pub fn includes(&self, template: &TableEntry) -> (r: bool)
        ensures
            r == record_matches(self@, template@),
    {
        let mut j: usize = 0;
        while j < template.pairs.len()
            invariant
                j <= template.pairs@.len(),
                forall|jj: int|
                    0 <= jj < j ==> {
                        let k = #[trigger] template.pairs@[jj].0@;
                        self@.contains_key(k) && self@[k] == template@[k]
                    },
            decreases template.pairs@.len() - j,
        {
            let key = &template.pairs[j].0;
            proof {
                lemma_pairs_view_dom(template.pairs@, key@);
            }
            let want = template.get(key);
            let have = self.get(key);
            match (have, want) {
                (Some(h), Some(w)) => {
                    if *h != *w {
                        return false;
                    }
                },
                _ => {
                    return false;
                },
            }
            j = j + 1;
        }
        proof {
            assert forall|k: Seq<char>| #[trigger] template@.contains_key(k) implies self@.contains_key(k)
                && self@[k] == template@[k] by {
                lemma_pairs_view_dom(template.pairs@, k);
                let jj = choose|jj: int| 0 <= jj < template.pairs@.len() && #[trigger] template.pairs@[jj].0@ == k;
            }
        }
        true
    }

    /// Writes every key of `other` into this record, overwriting values that
    /// are already there.
    pub fn merge(&mut self, other: &TableEntry)
        ensures
            final(self)@ == old(self)@.union_prefer_right(other@),
    {
        let mut j: usize = 0;
        while j < other.pairs.len()
            invariant
                j <= other.pairs@.len(),
                self@ == old(self)@.union_prefer_right(pairs_view(other.pairs@.take(j as int))),
            decreases other.pairs@.len() - j,
        {
            let k = other.pairs[j].0.clone();
            let v = other.pairs[j].1.clone();
            proof {
                let t = other.pairs@.take(j as int);
                assert(other.pairs@.take(j + 1) =~= t.push(other.pairs@[j as int]));
                lemma_pairs_view_push(t, other.pairs@[j as int]);
                assert(old(self)@.union_prefer_right(pairs_view(t)).insert(k@, v@) =~= old(self)@.union_prefer_right(
                    pairs_view(t).insert(k@, v@),
                ));
            }
            self.insert(k, v);
            j = j + 1;
        }
        assert(other.pairs@.take(other.pairs@.len() as int) =~= other.pairs@);
    }

    /// Whether every key of the record is one of `fields`.
    pub fn keys_within(&self, fields: &FieldSet) -> (r: bool)
        ensures
            r == self@.dom().subset_of(fields@),
    {
        let mut j: usize = 0;
        while j < self.pairs.len()
            invariant
                j <= self.pairs@.len(),
                forall|jj: int| 0 <= jj < j ==> fields@.contains(#[trigger] self.pairs@[jj].0@),
            decreases self.pairs@.len() - j,
        {
            if !fields.contains(&self.pairs[j].0) {
                proof {
                    lemma_pairs_view_dom(self.pairs@, self.pairs@[j as int].0@);
                }
                return false;
            }
            j = j + 1;
        }
        proof {
            assert forall|k: Seq<char>| #[trigger] self@.dom().contains(k) implies fields@.contains(k) by {
                lemma_pairs_view_dom(self.pairs@, k);
                let jj = choose|jj: int| 0 <= jj < self.pairs@.len() && #[trigger] self.pairs@[jj].0@ == k;
            }
        }
        true
    }
}

impl PartialEq for TableEntry {
    fn eq(&self, other: &TableEntry) -> (r: bool)
        ensures
            r == (self@ == other@),
    {
        let r = self.includes(other) && other.includes(self);
        proof {
            if r {
                assert(self@ =~= other@);
            }
        }
        r
    }
}

impl vstd::std_specs::cmp::PartialEqSpecImpl for TableEntry {
    open spec fn obeys_eq_spec() -> bool {
        true
    }

    open spec fn eq_spec(&self, other: &TableEntry) -> bool {
        self@ == other@
    }
}

} // verus!
