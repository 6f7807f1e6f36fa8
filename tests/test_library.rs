use issue_tracking::date::Date;
use issue_tracking::err::{ErrKind, IssueParserErr};
use issue_tracking::filters::{DateFilter, Filters, LabelFilter, StateFilter};
use issue_tracking::get::{check_status, request_url, PageStep, Pager};
use issue_tracking::input::{check_date_arg, check_filename, check_inputs, check_source};
use issue_tracking::labels::sorted_repo_labels;
use issue_tracking::parser::{
    check_issue_document, has_github_issues, remove_pull_requests, Issue, Label,
};
use issue_tracking::writer::{build_output_filename, csv_rows, export_rows};

fn issue(number: i32, labels: &[&str], state: &str, updated_at: &str, draft: Option<bool>) -> Issue {
    Issue {
        title: format!("issue {}", number),
        number,
        labels: labels
            .iter()
            .map(|l| Label {
                name: l.to_string(),
            })
            .collect(),
        state: state.to_string(),
        created_at: String::from("2019-01-02T03:04:05Z"),
        updated_at: updated_at.to_string(),
        closed_at: None,
        draft,
    }
}

fn no_filters() -> Filters {
    Filters {
        label_filter: LabelFilter {
            active: false,
            pattern: String::from("(all)"),
        },
        state_filter: StateFilter {
            active: false,
            pattern: String::from("(any)"),
        },
        date_filter: DateFilter {
            start_active: false,
            start_date: Date::from_str("(oldest)"),
            end_active: false,
            end_date: Date::from_str("(newest)"),
        },
    }
}

fn page(first: i32, len: usize, prs: usize) -> Vec<Issue> {
    (0..len)
        .map(|k| {
            let draft = if k < prs { Some(false) } else { None };
            issue(first + k as i32, &[], "open", "2021-01-01T00:00:00Z", draft)
        })
        .collect()
}

fn err_of(r: Result<(), IssueParserErr>) -> IssueParserErr {
    match r {
        Ok(()) => panic!("expected an error"),
        Err(e) => e,
    }
}

#[test]
fn date_parse_compares_equal_to_itself() {
    for s in ["1908-12-31", "0001-10-01", "2024-02-30"] {
        let a = Date::from_str(s);
        let b = Date::from_str(s);
        assert_eq!(a.compare(&b), 0);
    }
}

#[test]
fn date_compare_is_a_sign_and_transitive() {
    let a = Date { year: 2020, month: 1, day: 31 };
    let b = Date { year: 2020, month: 2, day: 1 };
    let c = Date { year: 2021, month: 1, day: 1 };
    assert_eq!(a.compare(&b), -1);
    assert_eq!(b.compare(&c), -1);
    assert_eq!(a.compare(&c), -1);
    assert_eq!(c.compare(&a), 1);
    let far = Date { year: i32::MIN, month: 0, day: 0 };
    let late = Date { year: i32::MAX, month: 0, day: 0 };
    assert_eq!(far.compare(&late), -1);
}

#[test]
fn date_parse_reads_prefix_and_markers() {
    let d = Date::date_str("2023-06-18T10:00:00Z").unwrap();
    assert_eq!((d.year, d.month, d.day), (2023, 6, 18));
    let m = Date::date_str("(newest)").unwrap();
    assert_eq!((m.year, m.month, m.day), (0, 0, 0));
    let out_of_range = Date::date_str("2023-13-45").unwrap();
    assert_eq!((out_of_range.month, out_of_range.day), (13, 45));
}

#[test]
fn date_parse_rejects_bad_text() {
    for s in ["2023-06-1", "20x3-06-18", "+023-06-18", ""] {
        match Date::date_str(s) {
            Ok(_) => panic!("accepted {}", s),
            Err(e) => {
                assert_eq!(e.kind, ErrKind::Parser);
                assert_eq!(e.msg, format!("{}: date is not at the right format (YYYY-MM-DD).", s));
            }
        }
    }
}

#[test]
fn pagination_stops_after_short_page() {
    let answers = vec![page(0, 100, 3), page(100, 100, 0), page(200, 37, 5)];
    let mut pager = Pager::new();
    let mut requested = Vec::new();
    let mut raw = 0;
    let mut answers = answers.into_iter();
    let repo = loop {
        requested.push(pager.page);
        let p = answers.next().expect("a fourth page was requested");
        raw += p.len();
        match pager.advance(Ok(p)) {
            PageStep::Next(n) => pager = n,
            PageStep::Done(repo) => break repo,
            PageStep::Failed(e) => panic!("{}", e.to_string()),
        }
    };
    assert_eq!(requested, vec![1, 2, 3]);
    assert_eq!(raw, 237);
    assert_eq!(repo.issues.len(), 237 - 8);
    assert_eq!(repo.issues[0].number, 3);
    assert_eq!(repo.issues[repo.issues.len() - 1].number, 236);
}

#[test]
fn pagination_page_of_pull_requests_is_not_last() {
    let mut pager = Pager::new();
    pager = match pager.advance(Ok(page(0, 100, 100))) {
        PageStep::Next(n) => n,
        _ => panic!("a full page of pull requests ended the fetch"),
    };
    assert_eq!(pager.page, 2);
    assert_eq!(pager.issues.len(), 0);
    match pager.advance(Ok(Vec::new())) {
        PageStep::Done(repo) => assert_eq!(repo.issues.len(), 0),
        _ => panic!("an empty page did not end the fetch"),
    }
}

#[test]
fn pagination_error_aborts() {
    let pager = Pager::new();
    let pager = match pager.advance(Ok(page(0, 100, 0))) {
        PageStep::Next(n) => n,
        _ => panic!("expected a next page"),
    };
    let e = IssueParserErr::new(ErrKind::Network, String::from("connection reset"));
    match pager.advance(Err(e)) {
        PageStep::Failed(e) => {
            assert_eq!(e.kind, ErrKind::Network);
            assert_eq!(e.msg, "connection reset");
        }
        _ => panic!("an error did not end the fetch"),
    }
}

#[test]
fn request_url_and_status() {
    assert_eq!(
        request_url("cocotb/cocotb", 12),
        "https://api.github.com/repos/cocotb/cocotb/issues?state=all&page=12&per_page=100"
    );
    let url = "https://example.org/x";
    assert!(check_status(200, url).is_ok());
    let e = err_of(check_status(401, url));
    assert_eq!((e.kind, e.msg.as_str()), (ErrKind::Auth, "Unauthorized token"));
    let e = err_of(check_status(404, url));
    assert_eq!(e.kind, ErrKind::NotFound);
    assert_eq!(e.msg, "'https://example.org/x': not found.");
    let e = err_of(check_status(500, url));
    assert_eq!(e.kind, ErrKind::Upstream);
    assert_eq!(e.msg, "'https://example.org/x': Something unexpected happened.");
}

#[test]
fn strip_is_idempotent_and_keeps_order() {
    let mut v = vec![
        issue(1, &[], "open", "2021-01-01", Some(true)),
        issue(2, &[], "open", "2021-01-01", None),
        issue(3, &[], "open", "2021-01-01", Some(false)),
        issue(4, &[], "open", "2021-01-01", None),
        issue(5, &[], "open", "2021-01-01", None),
    ];
    remove_pull_requests(&mut v);
    let once: Vec<i32> = v.iter().map(|i| i.number).collect();
    assert_eq!(once, vec![2, 4, 5]);
    remove_pull_requests(&mut v);
    let twice: Vec<i32> = v.iter().map(|i| i.number).collect();
    assert_eq!(twice, once);
}

#[test]
fn more_filters_reject_more() {
    let issues = vec![
        issue(1, &["bug"], "open", "2020-06-16", None),
        issue(2, &["bug"], "closed", "2020-06-16", None),
        issue(3, &[], "open", "2020-06-10", None),
    ];
    let mut f = no_filters();
    let none: Vec<bool> = issues.iter().map(|i| f.reject(i)).collect();
    assert_eq!(none, vec![false, false, false]);
    f.label_filter = LabelFilter { active: true, pattern: String::from("bug") };
    let label: Vec<bool> = issues.iter().map(|i| f.reject(i)).collect();
    assert_eq!(label, vec![false, false, true]);
    f.state_filter = StateFilter { active: true, pattern: String::from("open") };
    let state: Vec<bool> = issues.iter().map(|i| f.reject(i)).collect();
    assert_eq!(state, vec![false, true, true]);
    f.date_filter.start_active = true;
    f.date_filter.start_date = Date::from_str("2020-06-17");
    let date: Vec<bool> = issues.iter().map(|i| f.reject(i)).collect();
    assert_eq!(date, vec![true, true, true]);
}

#[test]
fn date_bounds_are_inclusive() {
    let mut f = no_filters();
    f.date_filter = DateFilter {
        start_active: true,
        start_date: Date::from_str("2020-06-15"),
        end_active: true,
        end_date: Date::from_str("2020-06-15"),
    };
    assert!(!f.reject(&issue(1, &[], "open", "2020-06-15T23:59:59Z", None)));
    assert!(f.reject(&issue(2, &[], "open", "2020-06-14T23:59:59Z", None)));
    assert!(f.reject(&issue(3, &[], "open", "2020-06-16T00:00:00Z", None)));
}

#[test]
fn label_match_is_exact() {
    let i = issue(1, &["type:feature", "rtl"], "open", "2020-06-16", None);
    assert!(i.is_labeled("rtl"));
    assert!(!i.is_labeled("RTL"));
    assert!(!i.is_labeled("type"));
    assert_eq!(Issue::format_date(String::from("2020-06-16T01:02:03Z")), "2020-06-16");
}

#[test]
fn export_round_trip_through_csv() {
    let issues = vec![
        issue(7, &[], "open", "2020-06-16T10:00:00Z", None),
        issue(-3, &[], "closed", "2021-01-02T10:00:00Z", None),
        issue(1545, &[], "open, \"quoted\"", "2022-12-31T10:00:00Z", None),
    ];
    let rows = csv_rows(&issues, &no_filters());
    assert_eq!(rows[0], vec!["ID", "Created at", "Last update", "State", "Comment"]);
    let mut w = csv::Writer::from_writer(Vec::new());
    for row in &rows {
        w.write_record(row).unwrap();
    }
    let bytes = w.into_inner().unwrap();
    let mut r = csv::Reader::from_reader(bytes.as_slice());
    let back: Vec<(i32, String, String, String, String)> = r
        .records()
        .map(|rec| {
            let rec = rec.unwrap();
            (
                rec[0].parse().unwrap(),
                rec[1].to_string(),
                rec[2].to_string(),
                rec[3].to_string(),
                rec[4].to_string(),
            )
        })
        .collect();
    let expected: Vec<(i32, String, String, String, String)> = issues
        .iter()
        .map(|i| {
            (
                i.number,
                i.created_at[..10].to_string(),
                i.updated_at[..10].to_string(),
                i.state.clone(),
                i.title.clone(),
            )
        })
        .collect();
    assert_eq!(back, expected);
}

#[test]
fn export_keeps_only_accepted_rows() {
    let issues = vec![
        issue(1, &["a"], "open", "2020-06-16", None),
        issue(2, &["b"], "open", "2020-06-16", None),
        issue(3, &["a"], "open", "2020-06-16", None),
    ];
    let mut f = no_filters();
    f.label_filter = LabelFilter { active: true, pattern: String::from("a") };
    let rows = export_rows(&issues, &f).unwrap();
    let ids: Vec<&str> = rows.iter().map(|r| r[0].as_str()).collect();
    assert_eq!(ids, vec!["ID", "1", "3"]);
}

#[test]
fn export_refuses_malformed_timestamps() {
    let issues = vec![
        issue(1, &[], "open", "2020-06-16", None),
        issue(2, &[], "open", "yesterday", None),
    ];
    match export_rows(&issues, &no_filters()) {
        Ok(_) => panic!("malformed timestamp accepted"),
        Err(e) => {
            assert_eq!(e.kind, ErrKind::Format);
            assert_eq!(e.msg, "issue 2: timestamp is not at the right format (YYYY-MM-DD).");
        }
    }
}

#[test]
fn document_without_issue_fields_is_a_format_error() {
    let bogus = "{\"name\": \"something else\", \"items\": [1, 2, 3]}";
    let e = err_of(check_issue_document(bogus, "tests/doc/bogus.json"));
    assert_eq!(e.kind, ErrKind::Format);
    assert_eq!(e.msg, "'tests/doc/bogus.json' does not seem to contain GitHub issues.");
    assert!(e.to_string().contains("does not seem to contain"));
    let good = "{\"issues\": [{\"title\": \"t\", \"number\": 1, \"labels\": [], \"state\": \"open\", \"created_at\": \"x\", \"closed_at\": null}]}";
    assert!(has_github_issues(good));
    assert!(check_issue_document(good, "good.json").is_ok());
    let partial = "{\"issues\": []}";
    assert!(has_github_issues(partial));
    assert!(check_issue_document(partial, "partial.json").is_ok());
}

#[test]
fn output_filename_gets_csv_extension() {
    assert_eq!(build_output_filename(String::from("out.csv")), "out.csv");
    assert_eq!(build_output_filename(String::from("outext.csv")), "outext.csv");
    assert_eq!(build_output_filename(String::from("report.xlsx")), "report.xlsx");
    assert_eq!(build_output_filename(String::from("outunext")), "outunext.csv");
    assert_eq!(build_output_filename(String::from("a.txt.bak")), "a.txt.bak.csv");
    assert_eq!(build_output_filename(String::from("notes.log")), "notes.log");
}

#[test]
fn input_checks_report_each_problem() {
    let ok = check_inputs("issues.json", "out.csv", ["(oldest)", "(newest)"], &false, true);
    assert!(ok.is_ok());
    let e = err_of(check_inputs("no/such/file.txt", "out.csv", ["(oldest)", "(newest)"], &false, false));
    assert_eq!((e.kind, e.msg.as_str()), (ErrKind::Input, "'no/such/file.txt' does not exist!"));
    let e = err_of(check_inputs("README.md", "out.csv", ["(oldest)", "(newest)"], &false, true));
    assert_eq!(e.msg, "'README.md' is not a json file!");
    let e = err_of(check_inputs("json", "out.csv", ["(oldest)", "(newest)"], &false, true));
    assert_eq!(e.msg, "'json' is not a json file!");
    let e = err_of(check_inputs("cocotb", "out.csv", ["(oldest)", "(newest)"], &true, false));
    assert_eq!(e.msg, "'cocotb' is not a valid GitHub repository.");
    assert!(check_inputs("cocotb/cocotb", "out.csv", ["2020-01-01", "(newest)"], &true, false).is_ok());
    for name in ["out;", "#out", "out/out"] {
        let e = err_of(check_inputs("a.json", name, ["(oldest)", "(newest)"], &false, true));
        assert_eq!(e.msg, format!("{}: filename contains special characters.", name));
    }
    let e = err_of(check_inputs("a.json", "out.csv", ["2020-01", "(newest)"], &false, true));
    assert_eq!(e.msg, "2020-01: date is not at the right format (YYYY-MM-DD).");
    let e = err_of(check_inputs("a.json", "out.csv", ["(oldest)", "2020-0a-01"], &false, true));
    assert_eq!(e.msg, "2020-0a-01: date contains non-numbers characters.");
    let e = err_of(check_inputs("a.json", "out.csv", ["(oldest)", "20201-01-01"], &false, true));
    assert_eq!(e.msg, "20201-01-01: date is not at the right format (YYYY-MM-DD).");
}

#[test]
fn input_check_parts() {
    assert!(check_source("a.json", false, true, Some("json")).is_ok());
    assert!(check_source("a.JSON", false, true, Some("JSON")).is_err());
    assert!(check_filename("report.v2.csv").is_ok());
    assert!(check_filename("rapport\u{e9}").is_ok());
    assert!(check_date_arg("2020-06-15").is_ok());
    assert!(check_date_arg("(oldest)").is_ok());
    assert!(check_date_arg("2020-06-15-").is_err());
    let e = err_of(check_date_arg("\u{663}020-06-15"));
    assert_eq!(e.msg, "\u{663}020-06-15: date contains non-numbers characters.");
    let e = err_of(check_date_arg("2020-06-150"));
    assert_eq!(e.msg, "2020-06-150: date is not at the right format (YYYY-MM-DD).");
}

#[test]
fn labels_sorted_case_insensitively_and_stable() {
    let issues = vec![
        issue(1, &["b", "A"], "open", "2020-06-16", None),
        issue(2, &["a", "B", "a"], "open", "2020-06-16", None),
        issue(3, &[], "open", "2020-06-16", None),
    ];
    assert_eq!(sorted_repo_labels(&issues), vec!["A", "a", "b", "B"]);
}

#[test]
fn error_report_line() {
    let e = IssueParserErr::new(ErrKind::Writer, String::from("disk full"));
    assert_eq!(e.to_string(), "Writer error: disk full");
    assert_eq!(e.map_err_kind(), "Writer");
}
