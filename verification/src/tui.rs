//! Text shown by the terminal progress display.
use vstd::prelude::*;
use vstd::string::StrSliceExecFns;
use vstd::string::StringExecFns;

use crate::state::{ParseResult, WorkerStatus};
use crate::text::{decimal, u64_to_decimal};

verus! {

/// The status text of a worker row.
pub open spec fn worker_label_text(status: WorkerStatus, matches: u64) -> Seq<char> {
    match status {
        WorkerStatus::Waiting => "waiting"@,
        WorkerStatus::Running => decimal(matches as nat) + " matches"@,
        WorkerStatus::Done => "done \u{2014} "@ + decimal(matches as nat) + " matches"@,
        WorkerStatus::Failed => "FAILED"@,
    }
}

/// The status text of a worker row: waiting, its match count while
/// running, done with its match count, or failed.
pub fn worker_label(status: WorkerStatus, matches: u64) -> (r: String)
    ensures
        r@ == worker_label_text(status, matches),
{
    match status {
        WorkerStatus::Waiting => "waiting".to_owned(),
        WorkerStatus::Running => {
            let mut s = u64_to_decimal(matches);
            s.append(" matches");
            s
        },
        WorkerStatus::Done => {
            let mut s = "done \u{2014} ".to_owned();
            let n = u64_to_decimal(matches);
            s.append(n.as_str());
            s.append(" matches");
            s
        },
        WorkerStatus::Failed => "FAILED".to_owned(),
    }
}


/// How many results the closing summary lists one by one.
pub const SUMMARY_ROWS: usize = 20;

/// `s` followed by spaces up to `width` characters.
pub open spec fn pad_end(s: Seq<char>, width: nat) -> Seq<char> {
    if s.len() >= width {
        s
    } else {
        s + Seq::new((width - s.len()) as nat, |i: int| ' ')
    }
}

/// Spaces up to `width` characters, then `s`.
pub open spec fn pad_start(s: Seq<char>, width: nat) -> Seq<char> {
    if s.len() >= width {
        s
    } else {
        Seq::new((width - s.len()) as nat, |i: int| ' ') + s
    }
}

/// The summary row of one result: section and label left-aligned in
/// columns of 10 and 12 characters, the offset right-aligned in 10, then
/// the value.
pub open spec fn result_row_text(r: ParseResult) -> Seq<char> {
    "  ["@ + pad_end(r.section@, 10) + "] "@ + pad_end(r.label@, 12) + " @ "@ + pad_start(
        decimal(r.offset as nat),
        10,
    ) + "  "@ + r.value@
}

/// The rows listed under the total: the first `SUMMARY_ROWS` results, then
/// how many more there are, if any.
pub open spec fn summary_text(rs: Seq<ParseResult>) -> Seq<Seq<char>> {
    if rs.len() > SUMMARY_ROWS {
        Seq::new(SUMMARY_ROWS as nat, |i: int| result_row_text(rs[i])).push(
            "  ... and "@ + decimal((rs.len() - SUMMARY_ROWS) as nat) + " more"@,
        )
    } else {
        Seq::new(rs.len(), |i: int| result_row_text(rs[i]))
    }
}

/// `n` spaces.
fn spaces(n: usize) -> (r: String)
    ensures
        r@ == Seq::new(n as nat, |i: int| ' '),
{
    let mut r = String::new();
    let mut k: usize = 0;
    let space = " ";
    proof {
        reveal_strlit(" ");
    }
    while k < n
        invariant
            k <= n,
            space@ == seq![' '],
            r@ == Seq::new(k as nat, |i: int| ' '),
        decreases n - k,
    {
        r.append(space);
        k = k + 1;
        assert(r@ =~= Seq::new(k as nat, |i: int| ' '));
    }
    r
}

/// `s` padded with spaces at its end to `width` characters.
fn padded_end(s: &str, width: usize) -> (r: String)
    ensures
        r@ == pad_end(s@, width as nat),
{
    let len = s.unicode_len();
    let mut r = s.to_owned();
    if len < width {
        let fill = spaces(width - len);
        r.append(fill.as_str());
    }
    r
}

/// `s` padded with spaces at its start to `width` characters.
fn padded_start(s: &str, width: usize) -> (r: String)
    ensures
        r@ == pad_start(s@, width as nat),
{
    let len = s.unicode_len();
    if len < width {
        let mut r = spaces(width - len);
        r.append(s);
        r
    } else {
        s.to_owned()
    }
}

/// The summary row of one result.
pub fn result_row(r: &ParseResult) -> (line: String)
    ensures
        line@ == result_row_text(*r),
{
    let mut line = "  [".to_owned();
    let section = padded_end(r.section.as_str(), 10);
    line.append(section.as_str());
    line.append("] ");
    let label = padded_end(r.label.as_str(), 12);
    line.append(label.as_str());
    line.append(" @ ");
    let offset = u64_to_decimal(r.offset);
    let offset = padded_start(offset.as_str(), 10);
    line.append(offset.as_str());
    line.append("  ");
    line.append(r.value.as_str());
    line
}

/// The rows of the closing summary, in order.
pub fn summary_rows(results: &[ParseResult]) -> (rows: Vec<String>)
    ensures
        rows@.len() == summary_text(results@).len(),
        forall|i: int| 0 <= i < rows@.len() ==> #[trigger] rows@[i]@ == summary_text(results@)[i],
{
    let shown = if results.len() > SUMMARY_ROWS {
        SUMMARY_ROWS
    } else {
        results.len()
    };
    let mut rows: Vec<String> = Vec::new();
    let mut i: usize = 0;
    while i < shown
        invariant
            i <= shown,
            shown == (if results@.len() > SUMMARY_ROWS {
                SUMMARY_ROWS as int
            } else {
                results@.len() as int
            }),
            rows@.len() == i,
            forall|k: int| 0 <= k < i ==> #[trigger] rows@[k]@ == result_row_text(results@[k]),
        decreases shown - i,
    {
        rows.push(result_row(&results[i]));
        i = i + 1;
    }
    if results.len() > SUMMARY_ROWS {
        let mut more = "  ... and ".to_owned();
        let n = u64_to_decimal((results.len() - SUMMARY_ROWS) as u64);
        more.append(n.as_str());
        more.append(" more");
        rows.push(more);
    }
    proof {
        let t = summary_text(results@);
        assert forall|k: int| 0 <= k < rows@.len() implies #[trigger] rows@[k]@ == t[k] by {
            if k < shown {
                assert(rows@[k]@ == result_row_text(results@[k]));
            }
        }
    }
    rows
}

} // verus!
