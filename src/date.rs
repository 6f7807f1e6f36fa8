//! Calendar dates read from `YYYY-MM-DD` text, and their order.

use vstd::prelude::*;
use crate::err::{ErrKind, IssueParserErr};
use crate::text::{all_digits, chars_of, digits_to_i32, digits_value, same_text};

verus! {

/// The text that stands for "no lower bound".
pub const OLDEST: &'static str = "(oldest)";

/// The text that stands for "no upper bound".
pub const NEWEST: &'static str = "(newest)";

/// A calendar date. No calendar validity is enforced.
#[derive(Clone, Copy, Debug, PartialEq, Eq, Structural)]
pub struct Date {
    pub year: i32,
    pub month: i32,
    pub day: i32,
}

/// `s` is one of the two bound markers.
pub open spec fn is_sentinel(s: Seq<char>) -> bool {
    s == OLDEST@ || s == NEWEST@
}

/// `s` starts with `YYYY-MM-DD`: at least ten characters, digits at the
/// year, month and day positions (the separators are not looked at).
pub open spec fn is_date_text(s: Seq<char>) -> bool {
    &&& s.len() >= 10
    &&& all_digits(s.subrange(0, 4))
    &&& all_digits(s.subrange(5, 7))
    &&& all_digits(s.subrange(8, 10))
}

/// The date written at the start of `s`.
pub open spec fn date_of_text(s: Seq<char>) -> Date {
    Date {
        year: digits_value(s.subrange(0, 4)) as i32,
        month: digits_value(s.subrange(5, 7)) as i32,
        day: digits_value(s.subrange(8, 10)) as i32,
    }
}

/// What `Date::date_str` makes of `s`: the zero date for a bound marker,
/// the written date for date text, nothing otherwise.
pub open spec fn parsed_date(s: Seq<char>) -> Option<Date> {
    if is_sentinel(s) {
        Some(Date { year: 0, month: 0, day: 0 })
    } else if is_date_text(s) {
        Some(date_of_text(s))
    } else {
        None
    }
}

/// The sign of `x`.
pub open spec fn sign(x: int) -> int {
    if x < 0 {
        -1
    } else if x > 0 {
        1
    } else {
        0
    }
}

/// Lexicographic comparison on `(year, month, day)`: -1, 0 or 1.
pub open spec fn date_cmp(a: Date, b: Date) -> int {
    if a.year != b.year {
        sign(a.year - b.year)
    } else if a.month != b.month {
        sign(a.month - b.month)
    } else {
        sign(a.day - b.day)
    }
}

/// The message of the error for text that is not a date.
pub open spec fn bad_date_msg(s: Seq<char>) -> Seq<char> {
    s + ": date is not at the right format (YYYY-MM-DD)."@
}

/// The sign of `a - b`, as -1, 0 or 1.
fn sign_of_diff(a: i32, b: i32) -> (r: i32)
    ensures
        r as int == sign(a - b),
{
    if a < b {
        -1
    } else if a > b {
        1
    } else {
        0
    }
}

/// Whether `cs[lo..hi]` are all digits.
fn digits_between(cs: &Vec<char>, lo: usize, hi: usize) -> (r: bool)
    requires
        lo <= hi <= cs.len(),
    ensures
        r == all_digits(cs@.subrange(lo as int, hi as int)),
{
    let mut i: usize = lo;
    while i < hi
        invariant
            lo <= i <= hi <= cs.len(),
            all_digits(cs@.subrange(lo as int, i as int)),
        decreases hi - i,
    {
        let c = cs[i];
        if !('0' <= c && c <= '9') {
            assert(cs@.subrange(lo as int, hi as int)[i - lo] == c);
            return false;
        }
        assert forall|k: int| 0 <= k < i + 1 - lo implies crate::text::is_digit(
            #[trigger] cs@.subrange(lo as int, i + 1)[k],
        ) by {
            if k < i - lo {
                assert(cs@.subrange(lo as int, i + 1)[k] == cs@.subrange(lo as int, i as int)[k]);
            }
        }
        i = i + 1;
    }
    true
}

/// Whether `cs` starts with `YYYY-MM-DD`.
fn date_text_in(cs: &Vec<char>) -> (r: bool)
    ensures
        r == is_date_text(cs@),
{
    cs.len() >= 10 && digits_between(cs, 0, 4) && digits_between(cs, 5, 7) && digits_between(
        cs,
        8,
        10,
    )
}

/// Whether `s` starts with `YYYY-MM-DD`.
pub fn starts_with_date(s: &str) -> (r: bool)
    ensures
        r == is_date_text(s@),
{
    date_text_in(&chars_of(s))
}

impl Date {
    /// Reads a date from the first ten characters of `date_str`
    /// (`YYYY-MM-DD`); a bound marker gives the zero date.
    pub fn date_str(date_str: &str) -> (r: Result<Date, IssueParserErr>)
        ensures
            parsed_date(date_str@) matches Some(d) ==> r == Ok::<Date, IssueParserErr>(d),
            parsed_date(date_str@) is None ==> (r matches Err(e) && e.kind == ErrKind::Parser
                && e.msg@ == bad_date_msg(date_str@)),
    {
        if same_text(date_str, OLDEST) || same_text(date_str, NEWEST) {
            return Ok(Date { year: 0, month: 0, day: 0 });
        }
        let cs = chars_of(date_str);
        if !date_text_in(&cs) {
            let mut msg = date_str.to_owned();
            msg.append(": date is not at the right format (YYYY-MM-DD).");
            return Err(IssueParserErr::new(ErrKind::Parser, msg));
        }
        Ok(Date {
            year: digits_to_i32(&cs, 0, 4),
            month: digits_to_i32(&cs, 5, 7),
            day: digits_to_i32(&cs, 8, 10),
        })
    }

    /// Reads a date that is known to be well written.
    pub fn from_str(date_str: &str) -> (r: Date)
        requires
            parsed_date(date_str@) is Some,
        ensures
            parsed_date(date_str@) == Some(r),
    {
        match Date::date_str(date_str) {
            Ok(d) => d,
            Err(_) => {
                proof {
                    assert(false);
                }
                Date { year: 0, month: 0, day: 0 }
            }
        }
    }

    /// -1, 0 or 1 as `self` comes before, on, or after `date`.
    pub fn compare(&self, date: &Date) -> (r: i32)
        ensures
            r as int == date_cmp(*self, *date),
    {
        if self.year != date.year {
            sign_of_diff(self.year, date.year)
        } else if self.month != date.month {
            sign_of_diff(self.month, date.month)
        } else {
            sign_of_diff(self.day, date.day)
        }
    }

    /// Whether `self` falls on or before `date`.
    pub fn before(&self, date: &Date) -> (r: bool)
        ensures
            r == (date_cmp(*self, *date) <= 0),
    {
        self.compare(date) <= 0
    }
}

/// Text that reads as a date gives a date that compares equal to the date
/// read from the same text again.
pub proof fn lemma_compare_reflexive(s: Seq<char>)
    requires
        parsed_date(s) is Some,
    ensures
        date_cmp(parsed_date(s)->0, parsed_date(s)->0) == 0,
{
}

/// `compare` is a total order: it is antisymmetric, transitive, and says 0
/// exactly of equal dates.
pub proof fn lemma_compare_total_order(a: Date, b: Date, c: Date)
    ensures
        date_cmp(a, b) == -date_cmp(b, a),
        date_cmp(a, b) == 0 <==> a == b,
        date_cmp(a, b) < 0 && date_cmp(b, c) < 0 ==> date_cmp(a, c) < 0,
        date_cmp(a, b) <= 0 && date_cmp(b, c) <= 0 ==> date_cmp(a, c) <= 0,
{
}

} // verus!

verus! {

/// Whether `s` is one of the two bound markers.
pub fn is_marker(s: &str) -> (r: bool)
    ensures
        r == is_sentinel(s@),
{
    same_text(s, OLDEST) || same_text(s, NEWEST)
}

} // verus!

verus! {

/// Date text is not a bound marker, so it reads as the date it writes.
pub proof fn lemma_date_text_parses(s: Seq<char>)
    requires
        is_date_text(s),
    ensures
        parsed_date(s) == Some(date_of_text(s)),
{
    reveal_strlit("(oldest)");
    reveal_strlit("(newest)");
    assert(crate::text::is_digit(s.subrange(0, 4)[0]));
    assert(!is_sentinel(s)) by {
        assert(s[0] != '(');
    }
}

} // verus!
