//! Aggregation of matched files into one textual stream.
//!
//! Each matched file becomes one record: a header line naming the path,
//! then either the file's content followed by a separator line, or an
//! inline error notice.  Records are rendered independently and
//! concatenated in order, so one unreadable file never disturbs the
//! records around it.

use vstd::prelude::*;
use crate::glob::{Pattern, glob_matches};

verus! {

/// The outcome of reading one matched file.
pub enum ReadOutcome {
    /// The file was read in full.
    Content { text: String },
    /// The file could not be read; the run continues.
    Failed,
}

/// One matched file with its read outcome.
pub struct FileRecord {
    pub path: String,
    pub outcome: ReadOutcome,
}

/// The fixed separator line that closes every successful record.
pub open spec fn separator() -> Seq<char> {
    "================================================================================"@
}

/// The text of one record: the header line, then the content and the
/// separator, or the error notice.
pub open spec fn record_text(path: Seq<char>, read: Option<Seq<char>>) -> Seq<char> {
    match read {
        Some(text) => "# File: "@ + path + "\n"@ + text + "\n\n"@ + separator() + "\n\n"@,
        None => "# File: "@ + path + "\n"@ + "Error reading file: "@ + path + "\n"@,
    }
}

/// The read outcome of a record as the option that `record_text` takes.
pub open spec fn outcome_view(o: ReadOutcome) -> Option<Seq<char>> {
    match o {
        ReadOutcome::Content { text } => Some(text@),
        ReadOutcome::Failed => None,
    }
}

/// The text of a whole record list: each record rendered on its own, in
/// order.
pub open spec fn render_all_spec(records: Seq<FileRecord>) -> Seq<char>
    decreases records.len(),
{
    if records.len() == 0 {
        Seq::empty()
    } else {
        render_all_spec(records.drop_last()) + record_text(
            records.last().path@,
            outcome_view(records.last().outcome),
        )
    }
}

/// Renders one record.
pub fn render_record(rec: &FileRecord) -> (r: String)
    ensures
        r@ == record_text(rec.path@, outcome_view(rec.outcome)),
{
    let mut r = String::from_str("# File: ");
    r.append(rec.path.as_str());
    r.append("\n");
    match &rec.outcome {
        ReadOutcome::Content { text } => {
            r.append(text.as_str());
            r.append("\n\n");
            r.append("================================================================================");
            r.append("\n\n");
            proof {
                assert(r@ =~= record_text(rec.path@, outcome_view(rec.outcome)));
            }
        },
        ReadOutcome::Failed => {
            r.append("Error reading file: ");
            r.append(rec.path.as_str());
            r.append("\n");
            proof {
                assert(r@ =~= record_text(rec.path@, outcome_view(rec.outcome)));
            }
        },
    }
    r
}

/// Renders a record list into the aggregated output text.
pub fn render_all(records: &Vec<FileRecord>) -> (r: String)
    ensures
        r@ == render_all_spec(records@),
{
    let n: usize = records.len();
    let mut r = String::new();
    let mut i: usize = 0;
    proof {
        assert(records@.take(0) =~= Seq::<FileRecord>::empty());
    }
    while i < n
        invariant
            i <= n,
            n == records@.len(),
            r@ == render_all_spec(records@.take(i as int)),
        decreases n - i,
    {
        let piece = render_record(&records[i]);
        r.append(piece.as_str());
        i = i + 1;
        proof {
            let t = records@.take(i as int);
            assert(t.drop_last() =~= records@.take(i as int - 1));
            assert(t.last() == records@[i as int - 1]);
        }
    }
    proof {
        assert(records@.take(n as int) =~= records@);
    }
    r
}

/// Read-failure isolation: rendering a concatenation of record lists is
/// the concatenation of their renderings, so each record's text depends on
/// that record alone and a failed read leaves every other record's text
/// unchanged.
pub proof fn lemma_render_split(a: Seq<FileRecord>, b: Seq<FileRecord>)
    ensures
        render_all_spec(a + b) == render_all_spec(a) + render_all_spec(b),
    decreases b.len(),
{
    if b.len() == 0 {
        assert(a + b =~= a);
        assert(render_all_spec(a) + render_all_spec(b) =~= render_all_spec(a));
    } else {
        lemma_render_split(a, b.drop_last());
        assert((a + b).drop_last() =~= a + b.drop_last());
        assert((a + b).last() == b.last());
        assert((a + b).len() > 0);
        assert(render_all_spec(a) + (render_all_spec(b.drop_last()) + record_text(
            b.last().path@,
            outcome_view(b.last().outcome),
        )) =~= (render_all_spec(a) + render_all_spec(b.drop_last())) + record_text(
            b.last().path@,
            outcome_view(b.last().outcome),
        ));
    }
}

/// The candidates that a compiled pattern keeps, in order.
pub open spec fn selected(cands: Seq<Seq<char>>, glob: Seq<char>) -> Seq<Seq<char>>
    decreases cands.len(),
{
    if cands.len() == 0 {
        Seq::empty()
    } else {
        let rest = selected(cands.drop_last(), glob);
        if glob_matches(glob, cands.last()) {
            rest.push(cands.last())
        } else {
            rest
        }
    }
}

/// Filters the candidate paths through a compiled pattern.
pub fn select_matching(cands: &Vec<String>, pat: &Pattern) -> (r: Vec<String>)
    ensures
        r.deep_view() == selected(cands.deep_view(), pat.glob()),
{
    let n: usize = cands.len();
    let mut r: Vec<String> = Vec::new();
    let mut i: usize = 0;
    proof {
        assert(cands.deep_view().take(0) =~= Seq::<Seq<char>>::empty());
        assert(r.deep_view() =~~= selected(cands.deep_view().take(0), pat.glob()));
    }
    while i < n
        invariant
            i <= n,
            n == cands@.len(),
            r.deep_view() == selected(cands.deep_view().take(i as int), pat.glob()),
        decreases n - i,
    {
        let ghost cv = cands.deep_view();
        proof {
            assert(cv.len() == cands@.len());
            assert(cv.take(i as int + 1).drop_last() =~= cv.take(i as int));
            assert(cv.take(i as int + 1).last() == cv[i as int]);
            assert(cv[i as int] == cands@[i as int]@);
        }
        if pat.matches(cands[i].as_str()) {
            let ghost oldvec = r@;
            let ghost olddeep = r.deep_view();
            let c = cands[i].clone();
            r.push(c);
            proof {
                assert(olddeep.len() == oldvec.len());
                assert forall|k: int|
                    0 <= k < r.deep_view().len() implies #[trigger] r.deep_view()[k] == selected(
                    cv.take(i as int + 1),
                    pat.glob(),
                )[k] by {
                    assert(r.deep_view()[k] == r@[k]@);
                    if k < oldvec.len() {
                        assert(r@[k] == oldvec[k]);
                        assert(olddeep[k] == oldvec[k]@);
                    } else {
                        assert(r@[k] == c);
                    }
                }
                assert(r.deep_view() =~= selected(cv.take(i as int + 1), pat.glob()));
            }
        }
        i = i + 1;
    }
    proof {
        assert(cands.deep_view().take(n as int) =~= cands.deep_view());
    }
    r
}

} // verus!
