//! The values given on the command line, and their validation.

use vstd::prelude::*;
use crate::err::{ErrKind, IssueParserErr};
use crate::text::{all_digits, chars_of, contains_text, is_digit, same_text};

verus! {

/// The command-line values that the library reads.
#[derive(Debug)]
pub struct Args {
    /// File to store the report in.
    pub output: String,
    /// Label that every kept issue carries, or `(all)`.
    pub label: String,
    /// Print the labels of the repository instead of exporting.
    pub print_labels: bool,
    /// Earliest update date kept (`YYYY-MM-DD`), or `(oldest)`.
    pub start_date: String,
    /// Latest update date kept (`YYYY-MM-DD`), or `(newest)`.
    pub end_date: String,
    /// State that every kept issue has, or `(any)`.
    pub state: String,
    /// Fetch the issues from the upstream API instead of a local file.
    pub get: bool,
    /// The local JSON file, or the `owner/repo` identifier.
    pub json: String,
}

} // verus!

verus! {

/// The extension that `std::path::Path::extension` finds in the path `p`.
pub uninterp spec fn extension_of(p: Seq<char>) -> Option<Seq<char>>;

/// Whether `char::is_alphanumeric` holds of `c`.
pub uninterp spec fn alnum_char(c: char) -> bool;

/// Relies on `std::path::Path::extension` (read as text, which never fails
/// for a path made from a `&str`): the extension of the path's file name.
#[verifier::external_body]
fn path_extension(p: &str) -> (r: Option<String>)
    ensures
        r matches Some(e) ==> extension_of(p@) == Some(e@),
        r is None ==> extension_of(p@) is None,
{
    std::path::Path::new(p).extension().and_then(|e| e.to_str()).map(|e| e.to_owned())
}

/// Relies on `char::is_alphanumeric`, which holds of the ASCII letters and
/// digits among others.
#[verifier::external_body]
fn alphanumeric(c: char) -> (r: bool)
    ensures
        r == alnum_char(c),
        is_ascii_alnum(c) ==> r,
{
    c.is_alphanumeric()
}

/// `c` is an ASCII letter or digit.
pub open spec fn is_ascii_alnum(c: char) -> bool {
    ('0' <= c && c <= '9') || ('a' <= c && c <= 'z') || ('A' <= c && c <= 'Z')
}

/// The positions of the `-` characters of `s`, in increasing order.
pub open spec fn dash_positions(s: Seq<char>) -> Seq<int>
    decreases s.len(),
{
    if s.len() == 0 {
        Seq::empty()
    } else if s.last() == '-' {
        dash_positions(s.drop_last()).push(s.len() - 1)
    } else {
        dash_positions(s.drop_last())
    }
}

/// The message for date text not in the `YYYY-MM-DD` layout.
pub open spec fn date_layout_msg(d: Seq<char>) -> Seq<char> {
    d + ": date is not at the right format (YYYY-MM-DD)."@
}

/// The message for date text with characters that are not digits.
pub open spec fn date_chars_msg(d: Seq<char>) -> Seq<char> {
    d + ": date contains non-numbers characters."@
}

/// What is wrong with the date argument `d`, as a message; `None` when it
/// is a bound marker, or exactly `YYYY-MM-DD` with ASCII digits: ten
/// characters, `-` at positions 4 and 7 only, digits everywhere else.
pub open spec fn date_arg_problem(d: Seq<char>) -> Option<Seq<char>> {
    let p = dash_positions(d);
    if crate::date::is_sentinel(d) {
        None
    } else if p.len() != 2 {
        Some(date_layout_msg(d))
    } else if exists|k: int| 0 <= k < d.len() && d[k] != '-' && !is_digit(#[trigger] d[k]) {
        Some(date_chars_msg(d))
    } else if p[0] != 4 || p[1] != 7 || d.len() != 10 {
        Some(date_layout_msg(d))
    } else {
        None
    }
}

/// A character allowed in the output file name: `.`, or one that
/// `char::is_alphanumeric` accepts. The ASCII letters and digits are named
/// as well, so that the rule shows them to be accepted.
pub open spec fn name_char_ok(c: char) -> bool {
    c == '.' || is_ascii_alnum(c) || alnum_char(c)
}

/// What is wrong with the output file name `f`: a character other than `.`
/// that is not alphanumeric.
pub open spec fn filename_problem(f: Seq<char>) -> Option<Seq<char>> {
    if exists|k: int| 0 <= k < f.len() && !name_char_ok(#[trigger] f[k]) {
        Some(f + ": filename contains special characters."@)
    } else {
        None
    }
}

/// What is wrong with the source: a local file must exist and have the
/// extension `json`; a remote source must be an `owner/repo` identifier.
pub open spec fn source_problem(p: Seq<char>, get: bool, exists: bool, ext: Option<Seq<char>>) -> Option<
    Seq<char>,
> {
    if !get {
        if !exists {
            Some("'"@ + p + "' does not exist!"@)
        } else if ext != Some("json"@) {
            Some("'"@ + p + "' is not a json file!"@)
        } else {
            None
        }
    } else if !crate::text::occurs_in(p, "/"@) {
        Some("'"@ + p + "' is not a valid GitHub repository."@)
    } else {
        None
    }
}

/// The first problem among the source, the output name and the two dates.
pub open spec fn inputs_problem(
    p: Seq<char>,
    get: bool,
    exists: bool,
    ext: Option<Seq<char>>,
    filename: Seq<char>,
    start: Seq<char>,
    end: Seq<char>,
) -> Option<Seq<char>> {
    if source_problem(p, get, exists, ext) is Some {
        source_problem(p, get, exists, ext)
    } else if filename_problem(filename) is Some {
        filename_problem(filename)
    } else if date_arg_problem(start) is Some {
        date_arg_problem(start)
    } else {
        date_arg_problem(end)
    }
}

/// The result that a problem message gives: an input error with it, or `Ok`.
pub open spec fn input_result(r: Result<(), IssueParserErr>, problem: Option<Seq<char>>) -> bool {
    match problem {
        None => r is Ok,
        Some(m) => r matches Err(e) && e.kind == ErrKind::Input && e.msg@ == m,
    }
}

fn input_error(msg: String) -> (r: Result<(), IssueParserErr>)
    ensures
        r matches Err(e) && e.kind == ErrKind::Input && e.msg@ == msg@,
{
    Err(IssueParserErr::new(ErrKind::Input, msg))
}

fn quoted(p: &str, tail: &str) -> (r: String)
    ensures
        r@ == "'"@ + p@ + tail@,
{
    let mut r = "'".to_owned();
    r.append(p);
    r.append(tail);
    r
}

/// Checks the source, given whether the local path exists and the extension
/// found in it.
pub fn check_source(filepath_str: &str, get: bool, path_exists: bool, extension: Option<&str>) -> (r:
    Result<(), IssueParserErr>)
    ensures
        input_result(
            r,
            source_problem(
                filepath_str@,
                get,
                path_exists,
                match extension {
                    Some(e) => Some(e@),
                    None => None,
                },
            ),
        ),
{
    if !get {
        if !path_exists {
            return input_error(quoted(filepath_str, "' does not exist!"));
        }
        let is_json = match extension {
            Some(e) => same_text(e, "json"),
            None => false,
        };
        if !is_json {
            return input_error(quoted(filepath_str, "' is not a json file!"));
        }
    } else if !contains_text(filepath_str, "/") {
        return input_error(quoted(filepath_str, "' is not a valid GitHub repository."));
    }
    Ok(())
}

/// Checks that every character of the output file name other than `.` is
/// alphanumeric.
pub fn check_filename(filename: &str) -> (r: Result<(), IssueParserErr>)
    ensures
        input_result(r, filename_problem(filename@)),
{
    let cs = chars_of(filename);
    let mut k: usize = 0;
    while k < cs.len()
        invariant
            k <= cs@.len(),
            cs@ == filename@,
            forall|j: int| 0 <= j < k ==> name_char_ok(#[trigger] cs@[j]),
        decreases cs@.len() - k,
    {
        if cs[k] != '.' && !alphanumeric(cs[k]) {
            let mut msg = filename.to_owned();
            msg.append(": filename contains special characters.");
            return input_error(msg);
        }
        k = k + 1;
    }
    Ok(())
}

/// The positions of the `-` characters of `cs`.
fn dash_positions_of(cs: &Vec<char>) -> (r: Vec<usize>)
    ensures
        r@.map_values(|p: usize| p as int) == dash_positions(cs@),
{
    let mut r: Vec<usize> = Vec::new();
    let mut i: usize = 0;
    while i < cs.len()
        invariant
            i <= cs@.len(),
            r@.map_values(|p: usize| p as int) == dash_positions(cs@.take(i as int)),
        decreases cs@.len() - i,
    {
        assert(cs@.take(i + 1).drop_last() == cs@.take(i as int));
        if cs[i] == '-' {
            let ghost before = r@;
            r.push(i);
            assert(r@.map_values(|p: usize| p as int) =~= before.map_values(|p: usize| p as int).push(
                i as int,
            ));
        }
        i = i + 1;
    }
    assert(cs@.take(i as int) == cs@);
    r
}

/// Checks one date argument: a bound marker, or exactly `YYYY-MM-DD`
/// written with ASCII digits. An accepted argument reads as a date.
pub fn check_date_arg(date: &str) -> (r: Result<(), IssueParserErr>)
    ensures
        input_result(r, date_arg_problem(date@)),
        r is Ok ==> crate::date::parsed_date(date@) is Some,
{
    if crate::date::is_marker(date) {
        return Ok(());
    }
    let cs = chars_of(date);
    let dashes = dash_positions_of(&cs);
    if dashes.len() != 2 {
        let mut msg = date.to_owned();
        msg.append(": date is not at the right format (YYYY-MM-DD).");
        return input_error(msg);
    }
    let mut k: usize = 0;
    while k < cs.len()
        invariant
            k <= cs@.len(),
            cs@ == date@,
            dashes@.map_values(|p: usize| p as int) == dash_positions(cs@),
            dashes.len() == 2,
            !crate::date::is_sentinel(date@),
            forall|j: int| 0 <= j < k && cs@[j] != '-' ==> is_digit(#[trigger] cs@[j]),
        decreases cs@.len() - k,
    {
        if cs[k] != '-' && !('0' <= cs[k] && cs[k] <= '9') {
            assert(date@[k as int] != '-' && !is_digit(date@[k as int]));
            assert(dash_positions(date@).len() == 2);
            let mut msg = date.to_owned();
            msg.append(": date contains non-numbers characters.");
            return input_error(msg);
        }
        k = k + 1;
    }
    let d0 = dashes[0];
    let d1 = dashes[1];
    proof {
        assert(dashes@.map_values(|p: usize| p as int)[0] == d0 as int);
        assert(dashes@.map_values(|p: usize| p as int)[1] == d1 as int);
        lemma_dash_positions_ordered(cs@);
    }
    if d0 != 4 || d1 != 7 || cs.len() != 10 {
        let mut msg = date.to_owned();
        msg.append(": date is not at the right format (YYYY-MM-DD).");
        return input_error(msg);
    }
    proof {
        lemma_dashes_complete(cs@);
        assert(dash_positions(cs@)[0] == 4 && dash_positions(cs@)[1] == 7);
        assert forall|k: int| 0 <= k < 10 && k != 4 && k != 7 implies is_digit(#[trigger] cs@[k]) by {
            if cs@[k] == '-' {
                assert(dash_positions(cs@).contains(k));
                let w = choose|w: int| 0 <= w < dash_positions(cs@).len() && dash_positions(cs@)[w] == k;
            }
        }
        assert(all_digits(cs@.subrange(0, 4))) by {
            assert forall|i: int| 0 <= i < 4 implies is_digit(#[trigger] cs@.subrange(0, 4)[i]) by {
                assert(cs@.subrange(0, 4)[i] == cs@[i]);
            }
        }
        assert(all_digits(cs@.subrange(5, 7))) by {
            assert forall|i: int| 0 <= i < 2 implies is_digit(#[trigger] cs@.subrange(5, 7)[i]) by {
                assert(cs@.subrange(5, 7)[i] == cs@[i + 5]);
            }
        }
        assert(all_digits(cs@.subrange(8, 10))) by {
            assert forall|i: int| 0 <= i < 2 implies is_digit(#[trigger] cs@.subrange(8, 10)[i]) by {
                assert(cs@.subrange(8, 10)[i] == cs@[i + 8]);
            }
        }
        crate::date::lemma_date_text_parses(cs@);
    }
    Ok(())
}

/// Every `-` of `s` is at a position that `dash_positions` lists.
proof fn lemma_dashes_complete(s: Seq<char>)
    ensures
        forall|k: int| 0 <= k < s.len() && s[k] == '-' ==> #[trigger] dash_positions(s).contains(k),
    decreases s.len(),
{
    if s.len() > 0 {
        let t = s.drop_last();
        lemma_dashes_complete(t);
        assert forall|k: int| 0 <= k < s.len() && s[k] == '-' implies #[trigger] dash_positions(
            s,
        ).contains(k) by {
            if k < t.len() {
                assert(t[k] == s[k]);
                assert(dash_positions(t).contains(k));
                let w = choose|w: int| 0 <= w < dash_positions(t).len() && dash_positions(t)[w] == k;
                if s.last() == '-' {
                    assert(dash_positions(s) == dash_positions(t).push(s.len() - 1));
                    assert(dash_positions(s)[w] == k);
                } else {
                    assert(dash_positions(s) == dash_positions(t));
                    assert(dash_positions(s)[w] == k);
                }
            } else {
                assert(dash_positions(s) == dash_positions(t).push(k));
                assert(dash_positions(s)[dash_positions(t).len() as int] == k);
            }
        }
    }
}

proof fn lemma_dash_positions_ordered(s: Seq<char>)
    ensures
        forall|a: int, b: int|
            0 <= a < b < dash_positions(s).len() ==> 0 <= #[trigger] dash_positions(s)[a]
                < #[trigger] dash_positions(s)[b] < s.len(),
        forall|a: int| 0 <= a < dash_positions(s).len() ==> 0 <= #[trigger] dash_positions(s)[a] < s.len(),
    decreases s.len(),
{
    if s.len() > 0 {
        let t = s.drop_last();
        lemma_dash_positions_ordered(t);
        let p = dash_positions(s);
        let q = dash_positions(t);
        if s.last() == '-' {
            assert(p == q.push(s.len() - 1));
            assert forall|a: int| 0 <= a < p.len() implies 0 <= #[trigger] p[a] < s.len() by {
                if a < q.len() {
                    assert(p[a] == q[a]);
                }
            }
            assert forall|a: int, b: int| 0 <= a < b < p.len() implies 0 <= #[trigger] p[a]
                < #[trigger] p[b] < s.len() by {
                assert(p[a] == q[a]);
                if b < q.len() {
                    assert(p[b] == q[b]);
                }
            }
        } else {
            assert(p == q);
        }
    }
}

/// Checks the command-line values before any work: the source, the output
/// file name, then the two date bounds; the first problem found is reported
/// as an input error. Whether a local path exists is read by the caller.
pub fn check_inputs(filepath_str: &str, filename: &str, dates: [&str; 2], get: &bool, path_exists: bool) -> (r:
    Result<(), IssueParserErr>)
    ensures
        input_result(
            r,
            inputs_problem(
                filepath_str@,
                *get,
                path_exists,
                extension_of(filepath_str@),
                filename@,
                dates@[0]@,
                dates@[1]@,
            ),
        ),
        r is Ok ==> crate::date::parsed_date(dates@[0]@) is Some && crate::date::parsed_date(
            dates@[1]@,
        ) is Some,
{
    let ext = if !*get {
        path_extension(filepath_str)
    } else {
        None
    };
    let source = match &ext {
        Some(e) => check_source(filepath_str, *get, path_exists, Some(e.as_str())),
        None => check_source(filepath_str, *get, path_exists, None),
    };
    if source.is_err() {
        return source;
    }
    let name = check_filename(filename);
    if name.is_err() {
        return name;
    }
    let start = check_date_arg(dates[0]);
    if start.is_err() {
        return start;
    }
    check_date_arg(dates[1])
}

} // verus!
