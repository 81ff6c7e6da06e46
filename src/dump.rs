use vstd::prelude::*;
use crate::json::SnapshotRow;
use crate::registry::RustDB;
use crate::snapshot::snapshot_of;

verus! {

/// Words separated by single spaces.
pub open spec fn join_words(ws: Seq<String>) -> Seq<char>
    decreases ws.len(),
{
    if ws.len() == 0 {
        Seq::empty()
    } else if ws.len() == 1 {
        ws[0]@
    } else {
        join_words(ws.drop_last()) + " "@ + ws.last()@
    }
}

/// A record on one line: `key=value` pairs separated by single spaces.
pub open spec fn join_pairs(ps: Seq<(String, String)>) -> Seq<char>
    decreases ps.len(),
{
    if ps.len() == 0 {
        Seq::empty()
    } else if ps.len() == 1 {
        ps[0].0@ + "="@ + ps[0].1@
    } else {
        join_pairs(ps.drop_last()) + " "@ + ps.last().0@ + "="@ + ps.last().1@
    }
}

/// One line per record.
pub open spec fn records_text(rs: Seq<Vec<(String, String)>>) -> Seq<char>
    decreases rs.len(),
{
    if rs.len() == 0 {
        Seq::empty()
    } else {
        records_text(rs.drop_last()) + join_pairs(rs.last()@) + "\n"@
    }
}

/// One collection: a heading with its name, a line of its fields, then its
/// records.
pub open spec fn row_text(row: SnapshotRow) -> Seq<char> {
    "Collection: "@ + row.0@ + "\n"@ + join_words(row.1@) + "\n"@ + records_text(row.2@)
}

/// Every collection, in order.
pub open spec fn dump_text(rows: Seq<SnapshotRow>) -> Seq<char>
    decreases rows.len(),
{
    if rows.len() == 0 {
        Seq::empty()
    } else {
        dump_text(rows.drop_last()) + row_text(rows.last())
    }
}

fn push_words(out: &mut String, ws: &Vec<String>)
    ensures
        final(out)@ == old(out)@ + join_words(ws@),
{
    let mut i: usize = 0;
    while i < ws.len()
        invariant
            i <= ws@.len(),
            out@ == old(out)@ + join_words(ws@.take(i as int)),
        decreases ws@.len() - i,
    {
        proof {
            assert(ws@.take(i + 1).drop_last() =~= ws@.take(i as int));
        }
        if i > 0 {
            out.append(" ");
        }
        out.append(ws[i].as_str());
        proof {
            if i == 0 {
                assert(join_words(ws@.take(0)) =~= Seq::<char>::empty());
                assert(out@ =~= old(out)@ + join_words(ws@.take(1)));
            } else {
                assert(out@ =~= old(out)@ + join_words(ws@.take(i + 1)));
            }
        }
        i = i + 1;
    }
    assert(ws@.take(ws@.len() as int) =~= ws@);
}

fn push_pairs(out: &mut String, ps: &Vec<(String, String)>)
    ensures
        final(out)@ == old(out)@ + join_pairs(ps@),
{
    let mut i: usize = 0;
    while i < ps.len()
        invariant
            i <= ps@.len(),
            out@ == old(out)@ + join_pairs(ps@.take(i as int)),
        decreases ps@.len() - i,
    {
        proof {
            assert(ps@.take(i + 1).drop_last() =~= ps@.take(i as int));
        }
        if i > 0 {
            out.append(" ");
        }
        out.append(ps[i].0.as_str());
        out.append("=");
        out.append(ps[i].1.as_str());
        proof {
            if i == 0 {
                assert(join_pairs(ps@.take(0)) =~= Seq::<char>::empty());
                assert(out@ =~= old(out)@ + join_pairs(ps@.take(1)));
            } else {
                assert(out@ =~= old(out)@ + join_pairs(ps@.take(i + 1)));
            }
        }
        i = i + 1;
    }
    assert(ps@.take(ps@.len() as int) =~= ps@);
}

/// The text of snapshot rows, one block per collection.
pub fn dump_rows(rows: &Vec<SnapshotRow>) -> (r: String)
    ensures
        r@ == dump_text(rows@),
{
    let mut out = String::new();
    let mut i: usize = 0;
    while i < rows.len()
        invariant
            i <= rows@.len(),
            out@ == dump_text(rows@.take(i as int)),
        decreases rows@.len() - i,
    {
        let ghost before = out@;
        let row: &SnapshotRow = &rows[i];
        out.append("Collection: ");
        out.append(row.0.as_str());
        out.append("\n");
        push_words(&mut out, &row.1);
        out.append("\n");
        let ghost head = out@;
        let mut j: usize = 0;
        while j < row.2.len()
            invariant
                j <= row.2@.len(),
                out@ == head + records_text(row.2@.take(j as int)),
            decreases row.2@.len() - j,
        {
            let ghost mid = out@;
            push_pairs(&mut out, &row.2[j]);
            out.append("\n");
            proof {
                assert(row.2@.take(j + 1).drop_last() =~= row.2@.take(j as int));
                assert(out@ =~= head + records_text(row.2@.take(j + 1)));
            }
            j = j + 1;
        }
        proof {
            assert(row.2@.take(row.2@.len() as int) =~= row.2@);
            assert(rows@.take(i + 1).drop_last() =~= rows@.take(i as int));
            assert(out@ =~= dump_text(rows@.take(i + 1)));
        }
        i = i + 1;
    }
    assert(rows@.take(rows@.len() as int) =~= rows@);
    out
}

impl RustDB {
    /// A text dump of the registry: for each collection, in creation order,
    /// its name, its fields and its records.
    pub fn show_db(&self) -> (r: String)
        requires
            self.wf(),
        ensures
            exists|rows: Seq<SnapshotRow>| snapshot_of(*self, rows) && r@ == dump_text(rows),
    {
        let rows = self.to_snapshot();
        dump_rows(&rows)
    }
}

} // verus!
