//! The filter engine: independent sub-filters on label, state and update
//! date, composed so that an issue is rejected when any active one rejects it.

use vstd::prelude::*;
use crate::date::{Date, date_cmp, date_of_text, is_date_text, parsed_date, NEWEST, OLDEST};
use crate::input::Args;
use crate::parser::{has_label, Issue};
use crate::text::same_text;

verus! {

/// The value of the label argument that means "no label filter".
pub const ANY_LABEL: &'static str = "(all)";

/// The value of the state argument that means "no state filter".
pub const ANY_STATE: &'static str = "(any)";

/// All sub-filters of one run.
#[derive(Debug)]
pub struct Filters {
    pub label_filter: LabelFilter,
    pub state_filter: StateFilter,
    pub date_filter: DateFilter,
}

/// Keeps only issues that carry a given label.
#[derive(Debug)]
pub struct LabelFilter {
    pub active: bool,
    pub pattern: String,
}

/// Keeps only issues in a given state.
#[derive(Debug)]
pub struct StateFilter {
    pub active: bool,
    pub pattern: String,
}

/// Keeps only issues last updated within inclusive bounds.
#[derive(Debug)]
pub struct DateFilter {
    pub start_active: bool,
    pub start_date: Date,
    pub end_active: bool,
    pub end_date: Date,
}

/// The label filter rejects `i`.
pub open spec fn label_rejects(f: LabelFilter, i: Issue) -> bool {
    f.active && !has_label(i, f.pattern@)
}

/// The state filter rejects `i`.
pub open spec fn state_rejects(f: StateFilter, i: Issue) -> bool {
    f.active && i.state@ != f.pattern@
}

/// The date filter rejects `i`: its update date falls before an active start
/// bound or after an active end bound.
pub open spec fn date_rejects(f: DateFilter, i: Issue) -> bool {
    let d = date_of_text(i.updated_at@);
    (f.start_active && date_cmp(f.start_date, d) > 0) || (f.end_active && date_cmp(f.end_date, d)
        < 0)
}

/// Some active sub-filter rejects `i`.
pub open spec fn filters_reject(f: Filters, i: Issue) -> bool {
    label_rejects(f.label_filter, i) || state_rejects(f.state_filter, i) || date_rejects(
        f.date_filter,
        i,
    )
}

/// No sub-filter of `f` is active.
pub open spec fn all_inactive(f: Filters) -> bool {
    !f.label_filter.active && !f.state_filter.active && !f.date_filter.start_active
        && !f.date_filter.end_active
}

/// `g` is `f` with zero or more further sub-filters switched on: every
/// sub-filter active in `f` is active in `g`, and patterns and bounds agree.
pub open spec fn enables_more(f: Filters, g: Filters) -> bool {
    &&& f.label_filter.active ==> g.label_filter.active
    &&& f.label_filter.pattern@ == g.label_filter.pattern@
    &&& f.state_filter.active ==> g.state_filter.active
    &&& f.state_filter.pattern@ == g.state_filter.pattern@
    &&& f.date_filter.start_active ==> g.date_filter.start_active
    &&& f.date_filter.start_date == g.date_filter.start_date
    &&& f.date_filter.end_active ==> g.date_filter.end_active
    &&& f.date_filter.end_date == g.date_filter.end_date
}

impl LabelFilter {
    /// Whether this filter rejects `issue`.
    pub fn reject(&self, issue: &Issue) -> (r: bool)
        ensures
            r == label_rejects(*self, *issue),
    {
        self.active && !issue.is_labeled(self.pattern.as_str())
    }
}

impl StateFilter {
    /// Whether this filter rejects `issue`.
    pub fn reject(&self, issue: &Issue) -> (r: bool)
        ensures
            r == state_rejects(*self, *issue),
    {
        self.active && !same_text(issue.state.as_str(), self.pattern.as_str())
    }
}

impl DateFilter {
    /// Whether this filter rejects `issue`, by its update date.
    pub fn reject(&self, issue: &Issue) -> (r: bool)
        requires
            is_date_text(issue.updated_at@),
        ensures
            r == date_rejects(*self, *issue),
    {
        proof {
            crate::date::lemma_date_text_parses(issue.updated_at@);
        }
        let issue_date = Date::from_str(issue.updated_at.as_str());
        if self.start_active && self.start_date.compare(&issue_date) > 0 {
            return true;
        }
        if self.end_active && self.end_date.compare(&issue_date) < 0 {
            return true;
        }
        false
    }
}

impl Filters {
    /// The filters that the command-line values ask for: a sub-filter is
    /// active unless its value is the "no filter" marker.
    pub fn from_args(args: &Args) -> (r: Filters)
        requires
            parsed_date(args.start_date@) is Some,
            parsed_date(args.end_date@) is Some,
        ensures
            r.label_filter.active == (args.label@ != ANY_LABEL@),
            r.label_filter.pattern@ == args.label@,
            r.state_filter.active == (args.state@ != ANY_STATE@),
            r.state_filter.pattern@ == args.state@,
            r.date_filter.start_active == (args.start_date@ != OLDEST@),
            Some(r.date_filter.start_date) == parsed_date(args.start_date@),
            r.date_filter.end_active == (args.end_date@ != NEWEST@),
            Some(r.date_filter.end_date) == parsed_date(args.end_date@),
    {
        let label_filter = LabelFilter {
            active: !same_text(args.label.as_str(), ANY_LABEL),
            pattern: args.label.as_str().to_owned(),
        };
        let state_filter = StateFilter {
            active: !same_text(args.state.as_str(), ANY_STATE),
            pattern: args.state.as_str().to_owned(),
        };
        let date_filter = DateFilter {
            start_active: !same_text(args.start_date.as_str(), OLDEST),
            start_date: Date::from_str(args.start_date.as_str()),
            end_active: !same_text(args.end_date.as_str(), NEWEST),
            end_date: Date::from_str(args.end_date.as_str()),
        };
        Filters { label_filter, state_filter, date_filter }
    }

    /// Whether some active sub-filter rejects `issue`.
    pub fn reject(&self, issue: &Issue) -> (r: bool)
        requires
            is_date_text(issue.updated_at@),
        ensures
            r == filters_reject(*self, *issue),
    {
        if self.label_filter.reject(issue) {
            return true;
        }
        if self.state_filter.reject(issue) {
            return true;
        }
        if self.date_filter.reject(issue) {
            return true;
        }
        false
    }
}

/// Switching on more sub-filters never lets through an issue that was
/// rejected before.
pub proof fn lemma_more_filters_reject_more(f: Filters, g: Filters, i: Issue)
    requires
        enables_more(f, g),
    ensures
        filters_reject(f, i) ==> filters_reject(g, i),
{
}

/// Filters with no active sub-filter reject nothing.
pub proof fn lemma_inactive_rejects_nothing(f: Filters, i: Issue)
    requires
        all_inactive(f),
    ensures
        !filters_reject(f, i),
{
}

} // verus!
