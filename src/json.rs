use vstd::prelude::*;
use rustc_serialize::json;
use std::collections::BTreeMap;
use crate::collection::pair_records;
use vstd::string::StringSliceAdditionalSpecFns;

verus! {

#[verifier::external_type_specification]
#[verifier::external_body]
pub struct ExEncoderError(json::EncoderError);

#[verifier::external_type_specification]
#[verifier::external_body]
pub struct ExDecoderError(json::DecoderError);

/// One collection as it is written out: its name, its field names and its
/// records as key-value pairs.
pub type SnapshotRow = (String, Vec<String>, Vec<Vec<(String, String)>>);

/// A list of records as plain pairs.
pub open spec fn pair_rows(rows: Seq<Vec<(String, String)>>) -> Seq<Seq<(Seq<char>, Seq<char>)>> {
    rows.map_values(|r: Vec<(String, String)>| r@.map_values(|p: (String, String)| (p.0@, p.1@)))
}

/// One snapshot row as plain values.
pub type PlainRow = (Seq<char>, Seq<Seq<char>>, Seq<Seq<(Seq<char>, Seq<char>)>>);

/// A snapshot as plain values.
pub open spec fn snapshot_rows(rows: Seq<SnapshotRow>) -> Seq<PlainRow> {
    rows.map_values(
        |row: SnapshotRow| (row.0@, row.1@.map_values(|s: String| s@), pair_rows(row.2@)),
    )
}

/// The digit character for `d < 10`.
pub open spec fn digit(d: nat) -> char {
    seq!['0', '1', '2', '3', '4', '5', '6', '7', '8', '9'][d as int]
}

/// The decimal text of `n`, without sign or leading zeros.
pub open spec fn decimal(n: nat) -> Seq<char>
    decreases n,
{
    if n < 10 {
        seq![digit(n)]
    } else {
        decimal(n / 10).push(digit(n % 10))
    }
}

/// The JSON string literal that rustc_serialize writes for a text.
pub uninterp spec fn json_text(s: Seq<char>) -> Seq<char>;

/// The JSON array of objects that rustc_serialize writes for a list of
/// records, each a map from key to value.
pub uninterp spec fn json_records(rows: Seq<Map<Seq<char>, Seq<char>>>) -> Seq<char>;

/// The JSON text that rustc_serialize writes for a snapshot.
pub uninterp spec fn json_snapshot(rows: Seq<PlainRow>) -> Seq<char>;

/// What rustc_serialize decodes from a text as snapshot rows; `None` when
/// the text is not such JSON.
pub uninterp spec fn json_decoded(text: Seq<char>) -> Option<Seq<PlainRow>>;

/// The deepest nesting of arrays and objects that a JSON text is allowed to
/// have before it is handed to the decoder, whose parser recurses once per
/// level.
pub const MAX_NESTING: usize = 64;

/// Scanner state over the bytes of a JSON text: open brackets outside string
/// literals, the most seen so far, whether the scan is inside a string
/// literal, and whether the byte before was an escaping backslash in one.
pub open spec fn scan_step(st: (int, int, bool, bool), b: u8) -> (int, int, bool, bool) {
    if st.2 {
        if st.3 {
            (st.0, st.1, true, false)
        } else if b == 92u8 {
            (st.0, st.1, true, true)
        } else if b == 34u8 {
            (st.0, st.1, false, false)
        } else {
            st
        }
    } else if b == 34u8 {
        (st.0, st.1, true, false)
    } else if b == 91u8 || b == 123u8 {
        (st.0 + 1, if st.0 + 1 > st.1 { st.0 + 1 } else { st.1 }, false, false)
    } else if b == 93u8 || b == 125u8 {
        (if st.0 > 0 { st.0 - 1 } else { 0 }, st.1, false, false)
    } else {
        st
    }
}

pub open spec fn scan(bs: Seq<u8>) -> (int, int, bool, bool)
    decreases bs.len(),
{
    if bs.len() == 0 {
        (0, 0, false, false)
    } else {
        scan_step(scan(bs.drop_last()), bs.last())
    }
}

/// The deepest nesting of `[` and `{` outside string literals.
pub open spec fn max_nesting(bs: Seq<u8>) -> int {
    scan(bs).1
}

/// Whether the nesting of `text` stays within `limit`.
pub fn nesting_within(text: &str, limit: usize) -> (r: bool)
    ensures
        r == (max_nesting(text.spec_bytes()) <= limit),
{
    let bytes = text.as_bytes();
    let mut d: usize = 0;
    let mut m: usize = 0;
    let mut ins = false;
    let mut esc = false;
    let mut i: usize = 0;
    while i < bytes.len()
        invariant
            bytes@ == text.spec_bytes(),
            i <= bytes@.len(),
            d <= i,
            m <= i,
            !ins ==> !esc,
            scan(bytes@.take(i as int)) == (d as int, m as int, ins, esc),
        decreases bytes@.len() - i,
    {
        let b = bytes[i];
        let ghost st = (d as int, m as int, ins, esc);
        proof {
            assert(bytes@.take(i + 1).drop_last() =~= bytes@.take(i as int));
            assert(bytes@.take(i + 1).last() == b);
            assert(scan(bytes@.take(i + 1)) == scan_step(st, b));
        }
        if ins {
            if esc {
                esc = false;
            } else if b == 92u8 {
                esc = true;
            } else if b == 34u8 {
                ins = false;
            }
        } else if b == 34u8 {
            ins = true;
        } else if b == 91u8 || b == 123u8 {
            d = d + 1;
            if d > m {
                m = d;
            }
        } else if b == 93u8 || b == 125u8 {
            if d > 0 {
                d = d - 1;
            }
        }
        assert((d as int, m as int, ins, esc) == scan_step(st, b));
        i = i + 1;
    }
    assert(bytes@.take(bytes@.len() as int) =~= bytes@);
    m <= limit
}

/// Relies on rustc_serialize::json::encode for a `str`: a quoted, escaped
/// JSON string. It writes into a `String`, which cannot fail.
#[verifier::external_body]
pub(crate) fn encode_text(s: &str) -> (r: Result<String, json::EncoderError>)
    ensures
        r is Ok,
        r matches Ok(t) ==> t@ == json_text(s@),
{
    json::encode(&s)
}

/// Relies on rustc_serialize::json::encode for a `usize`, which writes it with
/// `{}` into a `String`: its decimal digits, without failing.
#[verifier::external_body]
pub(crate) fn encode_count(n: usize) -> (r: Result<String, json::EncoderError>)
    ensures
        r is Ok,
        r matches Ok(t) ==> t@ == decimal(n as nat),
{
    json::encode(&n)
}

/// Relies on rustc_serialize::json::encode for a list of string maps: an
/// array of JSON objects. Each record is handed over as a `BTreeMap`, so keys
/// come out sorted, a later pair for a key wins, and the text depends on the
/// record maps alone. String keys never give `BadHashmapKey`, and writing
/// into a `String` cannot fail.
#[verifier::external_body]
pub(crate) fn encode_records(rows: &Vec<Vec<(String, String)>>) -> (r: Result<String, json::EncoderError>)
    ensures
        r is Ok,
        r matches Ok(t) ==> t@ == json_records(pair_records(rows@)),
{
    let maps: Vec<BTreeMap<String, String>> = rows.iter().map(|r| r.iter().cloned().collect()).collect();
    json::encode(&maps)
}

/// Relies on rustc_serialize::json::encode for nested vectors and tuples of
/// strings: nested JSON arrays, written into a `String` without failing.
#[verifier::external_body]
pub(crate) fn encode_snapshot(rows: &Vec<SnapshotRow>) -> (r: Result<String, json::EncoderError>)
    ensures
        r is Ok,
        r matches Ok(t) ==> t@ == json_snapshot(snapshot_rows(rows@)),
{
    json::encode(rows)
}

/// Relies on rustc_serialize::json::decode into nested vectors and tuples of
/// strings: the result depends on the text alone. Its parser recurses once
/// per level of nesting, so deep texts are kept out.
#[verifier::external_body]
pub(crate) fn decode_snapshot(text: &str) -> (r: Result<Vec<SnapshotRow>, json::DecoderError>)
    requires
        max_nesting(text.spec_bytes()) <= MAX_NESTING,
    ensures
        r is Ok <==> json_decoded(text@) is Some,
        r matches Ok(rows) ==> json_decoded(text@) == Some(snapshot_rows(rows@)),
{
    json::decode(text)
}

} // verus!
