use vstd::prelude::*;
use crate::collection::RecordView;
use crate::error::DbError;
use crate::fields::FieldSet;
use crate::record::TableEntry;

verus! {

/// The whitespace-separated words of a text, as `str::split_whitespace` gives them.
pub uninterp spec fn words_of(s: Seq<char>) -> Seq<Seq<char>>;

/// The pieces of a text between the occurrences of `sep`, in order: one
/// more piece than there are separators, empty pieces included.
pub open spec fn split_on(s: Seq<char>, sep: char) -> Seq<Seq<char>>
    decreases s.len(),
{
    if s.len() == 0 {
        seq![Seq::empty()]
    } else {
        let r = split_on(s.drop_last(), sep);
        if s.last() == sep {
            r.push(Seq::empty())
        } else {
            r.update(r.len() - 1, r.last().push(s.last()))
        }
    }
}

/// The `;`-separated clauses of a line.
pub open spec fn clauses_of(s: Seq<char>) -> Seq<Seq<char>> {
    split_on(s, ';')
}

/// A text without leading and trailing whitespace, as `str::trim` gives it.
pub uninterp spec fn trimmed(s: Seq<char>) -> Seq<char>;

/// Relies on str::split_whitespace: the words of `s`, in order; an empty
/// text has none.
#[verifier::external_body]
fn split_words(s: &str) -> (r: Vec<String>)
    ensures
        r@.map_values(|w: String| w@) == words_of(s@),
        s@.len() == 0 ==> r@.len() == 0,
{
    s.split_whitespace().map(|w| w.to_string()).collect()
}

/// Relies on str::split with the pattern `';'`: the pieces of `s` between
/// the semicolons, in order, empty ones included.
#[verifier::external_body]
fn split_clauses(s: &str) -> (r: Vec<String>)
    ensures
        r@.map_values(|w: String| w@) == split_on(s@, ';'),
{
    s.split(';').map(|w| w.to_string()).collect()
}

/// Relies on str::trim: `s` without surrounding whitespace.
#[verifier::external_body]
fn trim_line(s: &str) -> (r: String)
    ensures
        r@ == trimmed(s@),
{
    s.trim().to_string()
}

/// The record that `key value` lines stand for; `None` when a line does not
/// hold exactly two words.
pub open spec fn kv_lines(lines: Seq<Seq<char>>) -> Option<RecordView>
    decreases lines.len(),
{
    if lines.len() == 0 {
        Some(Map::empty())
    } else {
        match kv_lines(lines.drop_last()) {
            None => None,
            Some(m) => {
                let w = words_of(lines.last());
                if w.len() == 2 {
                    Some(m.insert(w[0], w[1]))
                } else {
                    None
                }
            },
        }
    }
}

/// The record that `key value` clauses stand for; a clause without words is
/// skipped, a clause's first two words are its key and value and further
/// words are ignored, and `None` when a clause holds a single word.
pub open spec fn kv_clauses(clauses: Seq<Seq<char>>) -> Option<RecordView>
    decreases clauses.len(),
{
    if clauses.len() == 0 {
        Some(Map::empty())
    } else {
        match kv_clauses(clauses.drop_last()) {
            None => None,
            Some(m) => {
                let w = words_of(clauses.last());
                if w.len() == 0 {
                    Some(m)
                } else if w.len() >= 2 {
                    Some(m.insert(w[0], w[1]))
                } else {
                    None
                }
            },
        }
    }
}

proof fn lemma_kv_lines_prefix(s: Seq<Seq<char>>, j: int)
    requires
        0 <= j <= s.len(),
        kv_lines(s.take(j)) is None,
    ensures
        kv_lines(s) is None,
    decreases s.len() - j,
{
    if j < s.len() {
        assert(s.take(j + 1).drop_last() =~= s.take(j));
        lemma_kv_lines_prefix(s, j + 1);
    } else {
        assert(s.take(j) =~= s);
    }
}

proof fn lemma_kv_clauses_prefix(s: Seq<Seq<char>>, j: int)
    requires
        0 <= j <= s.len(),
        kv_clauses(s.take(j)) is None,
    ensures
        kv_clauses(s) is None,
    decreases s.len() - j,
{
    if j < s.len() {
        assert(s.take(j + 1).drop_last() =~= s.take(j));
        lemma_kv_clauses_prefix(s, j + 1);
    } else {
        assert(s.take(j) =~= s);
    }
}

/// The record given by `key value` clauses separated by `;` on one line.
fn parse_clauses(line: &String) -> (r: Result<TableEntry, DbError>)
    ensures
        r is Ok <==> kv_clauses(clauses_of(line@)) is Some,
        r matches Ok(e) ==> kv_clauses(clauses_of(line@)) == Some(e@),
        r is Err ==> r == Err::<TableEntry, DbError>(DbError::MalformedRequest),
{
    let clauses = split_clauses(line.as_str());
    let ghost cs = clauses@.map_values(|w: String| w@);
    let mut entry = TableEntry::new();
    let mut i: usize = 0;
    while i < clauses.len()
        invariant
            i <= clauses@.len(),
            cs == clauses@.map_values(|w: String| w@),
            cs == clauses_of(line@),
            kv_clauses(cs.take(i as int)) == Some(entry@),
        decreases clauses@.len() - i,
    {
        let words = split_words(clauses[i].as_str());
        proof {
            assert(cs.take(i + 1).drop_last() =~= cs.take(i as int));
            assert(cs.take(i + 1).last() == clauses@[i as int]@);
        }
        if words.len() >= 2 {
            let k = words[0].clone();
            let v = words[1].clone();
            entry.insert(k, v);
        } else if words.len() != 0 {
            proof {
                lemma_kv_clauses_prefix(cs, i + 1);
            }
            return Err(DbError::MalformedRequest);
        }
        i = i + 1;
    }
    assert(cs.take(cs.len() as int) =~= cs);
    Ok(entry)
}

/// A parsed request: its verb, the collection it names, and its parameter
/// lines without surrounding whitespace.
#[derive(Debug)]
pub struct Request {
    command: String,
    request_collection: String,
    request_parameter: Vec<String>,
}

impl Request {
    pub closed spec fn command_view(&self) -> Seq<char> {
        self.command@
    }

    pub closed spec fn collection_view(&self) -> Seq<char> {
        self.request_collection@
    }

    pub closed spec fn params_view(&self) -> Seq<Seq<char>> {
        self.request_parameter@.map_values(|s: String| s@)
    }

    /// Parses a request from its first line and the lines after it, up to
    /// the blank line that ends it. The first line must hold a verb and a
    /// collection name; words after them are ignored.
    pub fn new(header: &str, lines: &Vec<String>) -> (r: Result<Request, DbError>)
        ensures
            r is Ok <==> words_of(header@).len() >= 2,
            r is Err ==> r == Err::<Request, DbError>(DbError::MalformedRequest),
            r matches Ok(q) ==> q.command_view() == words_of(header@)[0] && q.collection_view() == words_of(
                header@,
            )[1] && q.params_view() == lines@.map_values(|s: String| trimmed(s@)),
    {
        let words = split_words(header);
        proof {
            assert(words@.len() == words_of(header@).len());
        }
        if words.len() < 2 {
            return Err(DbError::MalformedRequest);
        }
        let command = words[0].clone();
        let request_collection = words[1].clone();
        proof {
            assert(words@[0]@ == words_of(header@)[0]);
            assert(words@[1]@ == words_of(header@)[1]);
        }
        let mut params: Vec<String> = Vec::new();
        let mut i: usize = 0;
        while i < lines.len()
            invariant
                i <= lines@.len(),
                params@.len() == i,
                forall|j: int| 0 <= j < i ==> #[trigger] params@[j]@ == trimmed(lines@[j]@),
            decreases lines@.len() - i,
        {
            let line: &String = &lines[i];
            let t = trim_line(line.as_str());
            params.push(t);
            i = i + 1;
        }
        assert(params@.map_values(|s: String| s@) =~= lines@.map_values(|s: String| trimmed(s@)));
        Ok(Request { command, request_collection, request_parameter: params })
    }

    /// The verb.
    pub fn get_command(&self) -> (r: String)
        ensures
            r@ == self.command_view(),
    {
        self.command.clone()
    }

    /// The collection name.
    pub fn get_collection(&self) -> (r: String)
        ensures
            r@ == self.collection_view(),
    {
        self.request_collection.clone()
    }

    /// The parameter lines read as bare field names.
    pub fn get_parameters(&self) -> (r: FieldSet)
        ensures
            r@ == self.params_view().to_set(),
    {
        let mut set = FieldSet::new();
        let mut i: usize = 0;
        while i < self.request_parameter.len()
            invariant
                i <= self.request_parameter@.len(),
                set@ == self.params_view().take(i as int).to_set(),
            decreases self.request_parameter@.len() - i,
        {
            set.insert(self.request_parameter[i].clone());
            proof {
                let p = self.params_view();
                assert(p.take(i + 1) =~= p.take(i as int).push(p[i as int]));
                p.take(i as int).lemma_push_to_set_commute(p[i as int]);
            }
            i = i + 1;
        }
        assert(self.params_view().take(self.params_view().len() as int) =~= self.params_view());
        set
    }

    /// The parameter lines read as `key value` pairs.
    pub fn get_attributes(&self) -> (r: Result<TableEntry, DbError>)
        ensures
            r is Ok <==> kv_lines(self.params_view()) is Some,
            r matches Ok(e) ==> kv_lines(self.params_view()) == Some(e@),
            r is Err ==> r == Err::<TableEntry, DbError>(DbError::MalformedRequest),
    {
        let ghost ps = self.params_view();
        let mut entry = TableEntry::new();
        let mut i: usize = 0;
        while i < self.request_parameter.len()
            invariant
                i <= self.request_parameter@.len(),
                ps == self.params_view(),
                kv_lines(ps.take(i as int)) == Some(entry@),
            decreases self.request_parameter@.len() - i,
        {
            let words = split_words(self.request_parameter[i].as_str());
            proof {
                assert(ps.take(i + 1).drop_last() =~= ps.take(i as int));
                assert(ps.take(i + 1).last() == self.request_parameter@[i as int]@);
            }
            if words.len() != 2 {
                proof {
                    lemma_kv_lines_prefix(ps, i + 1);
                }
                return Err(DbError::MalformedRequest);
            }
            let k = words[0].clone();
            let v = words[1].clone();
            entry.insert(k, v);
            i = i + 1;
        }
        assert(ps.take(ps.len() as int) =~= ps);
        Ok(entry)
    }

    /// The condition and the assignment of an update: the first parameter
    /// line and the second, each a list of `key value` clauses.
    pub fn get_object_desired(&self) -> (r: Result<(TableEntry, TableEntry), DbError>)
        ensures
            r is Ok <==> self.params_view().len() >= 2 && kv_clauses(clauses_of(self.params_view()[0])) is Some
                && kv_clauses(clauses_of(self.params_view()[1])) is Some,
            r matches Ok(p) ==> kv_clauses(clauses_of(self.params_view()[0])) == Some(p.0@) && kv_clauses(
                clauses_of(self.params_view()[1]),
            ) == Some(p.1@),
            r is Err ==> r == Err::<(TableEntry, TableEntry), DbError>(DbError::MalformedRequest),
    {
        if self.request_parameter.len() < 2 {
            return Err(DbError::MalformedRequest);
        }
        let object = parse_clauses(&self.request_parameter[0]);
        let desired = parse_clauses(&self.request_parameter[1]);
        match (object, desired) {
            (Ok(o), Ok(d)) => Ok((o, d)),
            _ => Err(DbError::MalformedRequest),
        }
    }
}

} // verus!
