//! The report: a fixed header row, then one row per issue that the filters
//! keep, in input order; and the name of the file it is written to.

use vstd::prelude::*;
use crate::err::{ErrKind, IssueParserErr};
use crate::filters::{all_inactive, filters_reject, Filters};
use crate::parser::{date_only, issue_wf, Issue};
use crate::text::{decimal_value, ends_with, ends_with_text, i32_decimal, int_decimal, same_text};

verus! {

/// The name used when no output file is given.
pub const DEFAULT_OUTPUT: &'static str = "out.csv";

/// The extension added to a file name that has no known one.
pub const CSV_EXT: &'static str = ".csv";

/// The header row of the report.
pub open spec fn header_row() -> Seq<Seq<char>> {
    seq!["ID"@, "Created at"@, "Last update"@, "State"@, "Comment"@]
}

/// The row of one issue: number, creation date, update date, state, title.
pub open spec fn row_of(i: Issue) -> Seq<Seq<char>> {
    seq![
        int_decimal(i.number as int),
        date_only(i.created_at@),
        date_only(i.updated_at@),
        i.state@,
        i.title@,
    ]
}

/// The issues that `f` lets through.
pub open spec fn passes(f: Filters) -> spec_fn(Issue) -> bool {
    |i: Issue| !filters_reject(f, i)
}

/// The report of `issues` under `f`: the header, then the row of each issue
/// that `f` keeps, in order.
pub open spec fn report_rows(issues: Seq<Issue>, f: Filters) -> Seq<Seq<Seq<char>>> {
    seq![header_row()] + issues.filter(passes(f)).map_values(|i: Issue| row_of(i))
}

/// The characters of each cell of `rows`.
pub open spec fn rows_view(rows: Seq<Vec<String>>) -> Seq<Seq<Seq<char>>> {
    rows.map_values(|row: Vec<String>| row@.map_values(|c: String| c@))
}

/// Every issue of `s` is well formed.
pub open spec fn all_wf(s: Seq<Issue>) -> bool {
    forall|k: int| 0 <= k < s.len() ==> issue_wf(#[trigger] s[k])
}

/// The message of the error for an issue with malformed timestamps.
pub open spec fn malformed_msg(i: Issue) -> Seq<char> {
    "issue "@ + int_decimal(i.number as int) + ": timestamp is not at the right format (YYYY-MM-DD)."@
}

/// A file name that already ends with one of the known text extensions.
pub open spec fn has_known_ext(f: Seq<char>) -> bool {
    ends_with(f, ".txt"@) || ends_with(f, ".csv"@) || ends_with(f, ".text"@) || ends_with(
        f,
        ".dat"@,
    ) || ends_with(f, ".log"@) || ends_with(f, ".xls"@) || ends_with(f, ".xlsx"@)
}

/// The file name the report is written to, for the name `f` that was asked.
pub open spec fn output_name(f: Seq<char>) -> Seq<char> {
    if f == DEFAULT_OUTPUT@ || has_known_ext(f) {
        f
    } else {
        f + CSV_EXT@
    }
}

fn cell(s: &str) -> (r: String)
    ensures
        r@ == s@,
{
    s.to_owned()
}

/// The header row of the report.
pub fn csv_header() -> (r: Vec<String>)
    ensures
        r@.map_values(|c: String| c@) == header_row(),
{
    let r = vec![
        cell("ID"),
        cell("Created at"),
        cell("Last update"),
        cell("State"),
        cell("Comment"),
    ];
    assert(r@.map_values(|c: String| c@) =~= header_row());
    r
}

/// The row of one well-formed issue.
pub fn issue_row(issue: &Issue) -> (r: Vec<String>)
    requires
        issue_wf(*issue),
    ensures
        r@.map_values(|c: String| c@) == row_of(*issue),
{
    let r = vec![
        i32_decimal(issue.number),
        Issue::format_date(issue.created_at.clone()),
        Issue::format_date(issue.updated_at.clone()),
        issue.state.clone(),
        issue.title.clone(),
    ];
    assert(r@.map_values(|c: String| c@) =~= row_of(*issue));
    r
}

/// The rows of the report: the header, then one row for each issue that the
/// filters keep, in input order.
pub fn csv_rows(issues: &Vec<Issue>, filters: &Filters) -> (r: Vec<Vec<String>>)
    requires
        all_wf(issues@),
    ensures
        rows_view(r@) == report_rows(issues@, *filters),
{
    let mut r: Vec<Vec<String>> = Vec::new();
    r.push(csv_header());
    let ghost f = *filters;
    let mut k: usize = 0;
    while k < issues.len()
        invariant
            k <= issues@.len(),
            all_wf(issues@),
            f == *filters,
            rows_view(r@) == report_rows(issues@.take(k as int), f),
        decreases issues@.len() - k,
    {
        let issue = &issues[k];
        proof {
            assert(issue_wf(issues@[k as int]));
            assert(issues@.take(k + 1) == issues@.take(k as int).push(issues@[k as int]));
            issues@.take(k as int).lemma_filter_push(issues@[k as int], passes(f));
        }
        if !filters.reject(issue) {
            let row = issue_row(issue);
            let ghost before = r@;
            r.push(row);
            proof {
                let kept = issues@.take(k as int).filter(passes(f));
                assert(passes(f)(issues@[k as int]));
                assert(issues@.take(k + 1).filter(passes(f)) == kept.push(issues@[k as int]));
                assert(kept.push(issues@[k as int]).map_values(|i: Issue| row_of(i))
                    =~= kept.map_values(|i: Issue| row_of(i)).push(row_of(issues@[k as int])));
                assert(rows_view(r@) =~= rows_view(before).push(row@.map_values(|c: String| c@)));
                assert(rows_view(r@) =~= report_rows(issues@.take(k + 1), f));
            }
        } else {
            proof {
                assert(rows_view(r@) =~= report_rows(issues@.take(k + 1), f));
            }
        }
        k = k + 1;
    }
    proof {
        assert(issues@.take(k as int) =~= issues@);
    }
    r
}

/// The report rows, after checking that every issue has well-formed
/// timestamps; the first issue that has not gives a format error.
pub fn export_rows(issues: &Vec<Issue>, filters: &Filters) -> (r: Result<
    Vec<Vec<String>>,
    IssueParserErr,
>)
    ensures
        r is Ok <==> all_wf(issues@),
        r matches Ok(rows) ==> rows_view(rows@) == report_rows(issues@, *filters),
        r matches Err(e) ==> e.kind == ErrKind::Format && exists|k: int|
            0 <= k < issues@.len() && !issue_wf(#[trigger] issues@[k]) && (forall|j: int|
                0 <= j < k ==> issue_wf(issues@[j])) && e.msg@ == malformed_msg(issues@[k]),
{
    let mut k: usize = 0;
    while k < issues.len()
        invariant
            k <= issues@.len(),
            forall|j: int| 0 <= j < k ==> issue_wf(#[trigger] issues@[j]),
        decreases issues@.len() - k,
    {
        if !issues[k].is_well_formed() {
            let mut msg = "issue ".to_owned();
            let num = i32_decimal(issues[k].number);
            msg.append(num.as_str());
            msg.append(": timestamp is not at the right format (YYYY-MM-DD).");
            return Err(IssueParserErr::new(ErrKind::Format, msg));
        }
        k = k + 1;
    }
    Ok(csv_rows(issues, filters))
}

/// The file name to write the report to: the default name and names that
/// end with a known text extension stay as they are, others get `.csv`
/// appended.
pub fn build_output_filename(filename: String) -> (r: String)
    ensures
        r@ == output_name(filename@),
{
    if same_text(filename.as_str(), DEFAULT_OUTPUT) {
        return filename;
    }
    let f = filename.as_str();
    if ends_with_text(f, ".txt") || ends_with_text(f, ".csv") || ends_with_text(f, ".text")
        || ends_with_text(f, ".dat") || ends_with_text(f, ".log") || ends_with_text(f, ".xls")
        || ends_with_text(f, ".xlsx") {
        return filename;
    }
    let mut r = filename;
    r.append(CSV_EXT);
    r
}

proof fn lemma_filter_keeps_all(s: Seq<Issue>, p: spec_fn(Issue) -> bool)
    requires
        forall|k: int| 0 <= k < s.len() ==> p(#[trigger] s[k]),
    ensures
        s.filter(p) == s,
    decreases s.len(),
{
    if s.len() > 0 {
        lemma_filter_keeps_all(s.drop_last(), p);
        s.drop_last().lemma_filter_push(s.last(), p);
        assert(s.drop_last().push(s.last()) == s);
    }
}

/// Exporting with no active filter and reading the rows back gives, for
/// every issue in order, its number, its two dates and its state and title.
pub proof fn lemma_unfiltered_export_round_trip(issues: Seq<Issue>, f: Filters)
    requires
        all_inactive(f),
    ensures
        report_rows(issues, f).len() == issues.len() + 1,
        report_rows(issues, f)[0] == header_row(),
        forall|k: int|
            0 <= k < issues.len() ==> {
                let row = #[trigger] report_rows(issues, f)[k + 1];
                &&& row.len() == 5
                &&& decimal_value(row[0]) == issues[k].number
                &&& row[1] == date_only(issues[k].created_at@)
                &&& row[2] == date_only(issues[k].updated_at@)
                &&& row[3] == issues[k].state@
                &&& row[4] == issues[k].title@
            },
{
    lemma_filter_keeps_all(issues, passes(f));
    assert forall|k: int| 0 <= k < issues.len() implies decimal_value(
        #[trigger] report_rows(issues, f)[k + 1][0],
    ) == issues[k].number by {
        crate::text::lemma_decimal_round_trip(issues[k].number as int);
    }
}

} // verus!
