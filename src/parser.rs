//! The issue record model, pull-request stripping, and the check that a
//! document holds issue records at all.

use vstd::prelude::*;
use crate::date::is_date_text;
use crate::err::{ErrKind, IssueParserErr};
use crate::text::{contains_text, occurs_in, same_text, string_of, chars_of};

verus! {

broadcast use vstd::seq_lib::group_filter_ensures;

/// The ordered issues of one repository.
#[derive(Debug)]
pub struct Repository {
    pub issues: Vec<Issue>,
}

/// One issue record. `draft` is present only on pull requests.
#[derive(Debug)]
pub struct Issue {
    pub title: String,
    pub number: i32,
    pub labels: Vec<Label>,
    pub state: String,
    pub created_at: String,
    pub updated_at: String,
    pub closed_at: Option<String>,
    pub draft: Option<bool>,
}

/// A label attached to an issue.
#[derive(Debug)]
pub struct Label {
    pub name: String,
}

/// The record is a pull request: it carries the pull-request-only field.
pub open spec fn is_pr(i: Issue) -> bool {
    i.draft is Some
}

/// Some label of `i` is named exactly `pattern`.
pub open spec fn has_label(i: Issue, pattern: Seq<char>) -> bool {
    exists|k: int| 0 <= k < i.labels@.len() && (#[trigger] i.labels@[k]).name@ == pattern
}

/// The date portion of a timestamp: its first ten characters.
pub open spec fn date_only(ts: Seq<char>) -> Seq<char> {
    ts.take(10)
}

/// The timestamps that the filters and the exporter read are well formed:
/// the creation time has a date portion, and the update time starts with
/// `YYYY-MM-DD`.
pub open spec fn issue_wf(i: Issue) -> bool {
    i.created_at@.len() >= 10 && is_date_text(i.updated_at@)
}

/// The records that stripping keeps: those that are not pull requests.
pub open spec fn kept() -> spec_fn(Issue) -> bool {
    |i: Issue| !is_pr(i)
}

/// `s` without its pull requests, in the same order.
pub open spec fn strip_prs(s: Seq<Issue>) -> Seq<Issue> {
    s.filter(kept())
}

proof fn lemma_strip_step(s: Seq<Issue>, j: int)
    requires
        0 <= j < s.len(),
    ensures
        strip_prs(s.take(j + 1)) == if is_pr(s[j]) {
            strip_prs(s.take(j))
        } else {
            strip_prs(s.take(j)).push(s[j])
        },
{
    assert(s.take(j + 1) == s.take(j).push(s[j]));
    s.take(j).lemma_filter_push(s[j], kept());
}

/// The text names at least one field of the issue record shape.
pub open spec fn has_issue_fields(t: Seq<char>) -> bool {
    ||| occurs_in(t, "\"issues\""@)
    ||| occurs_in(t, "\"title\""@)
    ||| occurs_in(t, "\"number\""@)
    ||| occurs_in(t, "\"labels\""@)
    ||| occurs_in(t, "\"state\""@)
    ||| occurs_in(t, "\"created_at\""@)
    ||| occurs_in(t, "\"closed_at\""@)
}

/// The message of the error for a document without issue records.
pub open spec fn no_issues_msg(name: Seq<char>) -> Seq<char> {
    "'"@ + name + "' does not seem to contain GitHub issues."@
}

impl Issue {
    /// The date portion (first ten characters) of a timestamp.
    pub fn format_date(date: String) -> (r: String)
        requires
            date@.len() >= 10,
        ensures
            r@ == date_only(date@),
    {
        let cs = chars_of(date.as_str());
        string_of(&cs, 0, 10)
    }

    /// Whether some label of the issue is named exactly `pattern`.
    pub fn is_labeled(&self, pattern: &str) -> (r: bool)
        ensures
            r == has_label(*self, pattern@),
    {
        let mut k: usize = 0;
        while k < self.labels.len()
            invariant
                k <= self.labels@.len(),
                forall|j: int| 0 <= j < k ==> (#[trigger] self.labels@[j]).name@ != pattern@,
            decreases self.labels@.len() - k,
        {
            if same_text(self.labels[k].name.as_str(), pattern) {
                return true;
            }
            k = k + 1;
        }
        false
    }

    /// Whether the record is a pull request.
    pub fn is_pull_request(&self) -> (r: bool)
        ensures
            r == is_pr(*self),
    {
        self.draft.is_some()
    }

    /// Whether the timestamps are well formed (see `issue_wf`).
    pub fn is_well_formed(&self) -> (r: bool)
        ensures
            r == issue_wf(*self),
    {
        let created = chars_of(self.created_at.as_str());
        if created.len() < 10 {
            return false;
        }
        crate::date::starts_with_date(self.updated_at.as_str())
    }
}

/// Removes every pull request from `elems`, keeping the order of the rest.
pub fn remove_pull_requests(elems: &mut Vec<Issue>)
    ensures
        final(elems)@ == strip_prs(old(elems)@),
{
    let ghost orig = elems@;
    let ghost mut j: int = 0;
    let mut i: usize = 0;
    while i < elems.len()
        invariant
            0 <= j <= orig.len(),
            elems@ == strip_prs(orig.take(j)) + orig.skip(j),
            i == strip_prs(orig.take(j)).len(),
        decreases elems@.len() - i,
    {
        proof {
            lemma_strip_step(orig, j);
            assert(elems@[i as int] == orig[j]);
        }
        if elems[i].is_pull_request() {
            elems.remove(i);
            proof {
                assert(elems@ =~= strip_prs(orig.take(j + 1)) + orig.skip(j + 1));
            }
        } else {
            proof {
                assert(elems@ =~= strip_prs(orig.take(j + 1)) + orig.skip(j + 1));
            }
            i = i + 1;
        }
        proof {
            j = j + 1;
        }
    }
    proof {
        assert(orig.skip(j).len() == 0);
        assert(orig.take(j) =~= orig);
        assert(elems@ =~= strip_prs(orig));
    }
}

/// Whether the text names at least one field of the issue record shape.
pub fn has_github_issues(text: &str) -> (r: bool)
    ensures
        r == has_issue_fields(text@),
{
    contains_text(text, "\"issues\"") || contains_text(text, "\"title\"") || contains_text(
        text,
        "\"number\"",
    ) || contains_text(text, "\"labels\"") || contains_text(text, "\"state\"") || contains_text(
        text,
        "\"created_at\"",
    ) || contains_text(text, "\"closed_at\"")
}

/// The check made on a document named `name` before it is decoded: it fails
/// with a format error exactly when no field name of the issue record shape
/// occurs in `text`.
pub fn check_issue_document(text: &str, name: &str) -> (r: Result<(), IssueParserErr>)
    ensures
        r is Ok <==> has_issue_fields(text@),
        r matches Err(e) ==> e.kind == ErrKind::Format && e.msg@ == no_issues_msg(name@),
{
    if has_github_issues(text) {
        Ok(())
    } else {
        let mut msg = "'".to_owned();
        msg.append(name);
        msg.append("' does not seem to contain GitHub issues.");
        Err(IssueParserErr::new(ErrKind::Format, msg))
    }
}

/// `idx` lists, in increasing order, the positions of `s` whose records
/// make up `r`, and every position left out holds a pull request.
pub open spec fn kept_in_order(s: Seq<Issue>, r: Seq<Issue>, idx: Seq<int>) -> bool {
    &&& idx.len() == r.len()
    &&& forall|k: int| 0 <= k < idx.len() ==> 0 <= #[trigger] idx[k] < s.len() && r[k] == s[idx[k]]
    &&& forall|a: int, b: int| 0 <= a < b < idx.len() ==> #[trigger] idx[a] < #[trigger] idx[b]
    &&& forall|j: int| 0 <= j < s.len() && !idx.contains(j) ==> is_pr(#[trigger] s[j])
}

proof fn lemma_strip_positions(s: Seq<Issue>) -> (idx: Seq<int>)
    ensures
        kept_in_order(s, strip_prs(s), idx),
        forall|k: int| 0 <= k < strip_prs(s).len() ==> !is_pr(#[trigger] strip_prs(s)[k]),
    decreases s.len(),
{
    if s.len() == 0 {
        Seq::empty()
    } else {
        let t = s.drop_last();
        let prev = lemma_strip_positions(t);
        t.lemma_filter_push(s.last(), kept());
        assert(t.push(s.last()) == s);
        let r = strip_prs(s);
        let idx = if is_pr(s.last()) {
            prev
        } else {
            prev.push(s.len() - 1)
        };
        assert forall|k: int| 0 <= k < idx.len() implies 0 <= #[trigger] idx[k] < s.len() && r[k]
            == s[idx[k]] by {
            if k < prev.len() {
                assert(idx[k] == prev[k]);
                assert(strip_prs(t)[k] == r[k]);
                assert(t[prev[k]] == s[prev[k]]);
            }
        }
        assert forall|a: int, b: int| 0 <= a < b < idx.len() implies #[trigger] idx[a]
            < #[trigger] idx[b] by {
            assert(idx[a] == prev[a]);
            if b < prev.len() {
                assert(idx[b] == prev[b]);
            }
        }
        assert forall|j: int| 0 <= j < s.len() && !idx.contains(j) implies is_pr(#[trigger] s[j]) by {
            if j < s.len() - 1 {
                assert(t[j] == s[j]);
                if prev.contains(j) {
                    let w = choose|w: int| 0 <= w < prev.len() && prev[w] == j;
                    assert(idx[w] == j);
                }
            } else if !is_pr(s.last()) {
                assert(idx[idx.len() - 1] == j);
            }
        }
        assert forall|k: int| 0 <= k < r.len() implies !is_pr(#[trigger] r[k]) by {
            if k < strip_prs(t).len() {
                assert(r[k] == strip_prs(t)[k]);
            }
        }
        idx
    }
}

proof fn lemma_strip_keeps_all(s: Seq<Issue>)
    requires
        forall|k: int| 0 <= k < s.len() ==> !is_pr(#[trigger] s[k]),
    ensures
        strip_prs(s) == s,
    decreases s.len(),
{
    if s.len() > 0 {
        lemma_strip_keeps_all(s.drop_last());
        s.drop_last().lemma_filter_push(s.last(), kept());
        assert(s.drop_last().push(s.last()) == s);
    }
}

/// Stripping pull requests twice gives what stripping once gives, and the
/// records that remain keep their relative order: they are the records of
/// `s` at increasing positions, and every record left out is a pull request.
pub proof fn lemma_strip_idempotent_in_order(s: Seq<Issue>)
    ensures
        strip_prs(strip_prs(s)) == strip_prs(s),
        exists|idx: Seq<int>| kept_in_order(s, strip_prs(s), idx),
{
    let idx = lemma_strip_positions(s);
    lemma_strip_keeps_all(strip_prs(s));
}

} // verus!
