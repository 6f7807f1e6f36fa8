//! Fetching from the paginated upstream listing: the request address, the
//! reading of a response status, and the decisions of the page loop. The
//! requests themselves are made by the caller, which hands each outcome back.

use vstd::prelude::*;
use crate::err::{ErrKind, IssueParserErr};
use crate::parser::{remove_pull_requests, strip_prs, Issue, Repository};
use crate::text::{nat_decimal, u64_decimal};

verus! {

/// The number of records asked for per page.
pub const PER_PAGE: usize = 100;

/// The address of page `page` of the issues of `repo` (`owner/repo`).
pub open spec fn page_url(repo: Seq<char>, page: nat) -> Seq<char> {
    "https://api.github.com/repos/"@ + repo + "/issues?state=all&page="@ + nat_decimal(page)
        + "&per_page=100"@
}

/// What a response status means: `None` for success, else the kind and the
/// message of the error.
pub open spec fn status_problem(status: u16, url: Seq<char>) -> Option<(ErrKind, Seq<char>)> {
    if status == 200 {
        None
    } else if status == 401 {
        Some((ErrKind::Auth, "Unauthorized token"@))
    } else if status == 404 {
        Some((ErrKind::NotFound, "'"@ + url + "': not found."@))
    } else {
        Some((ErrKind::Upstream, "'"@ + url + "': Something unexpected happened."@))
    }
}

/// A page is full when it holds at least a page's worth of records; a
/// shorter page is the last one.
pub open spec fn is_full(page: Seq<Issue>) -> bool {
    page.len() >= PER_PAGE
}

/// The number of pages a fetch requests when the upstream answers `pages` in
/// turn: it stops after the first page that is not full.
pub open spec fn pages_requested(pages: Seq<Seq<Issue>>) -> nat
    decreases pages.len(),
{
    if pages.len() == 0 {
        0
    } else if !is_full(pages[0]) {
        1
    } else {
        1 + pages_requested(pages.drop_first())
    }
}

/// The number of records, pull requests included, in the pages that a fetch
/// requests when the upstream answers `pages` in turn.
pub open spec fn records_received(pages: Seq<Seq<Issue>>) -> nat
    decreases pages.len(),
{
    if pages.len() == 0 {
        0
    } else if !is_full(pages[0]) {
        pages[0].len()
    } else {
        pages[0].len() + records_received(pages.drop_first())
    }
}

/// The issues a fetch collects when the upstream answers `pages` in turn:
/// each requested page without its pull requests, in order.
pub open spec fn issues_collected(pages: Seq<Seq<Issue>>) -> Seq<Issue>
    decreases pages.len(),
{
    if pages.len() == 0 {
        Seq::empty()
    } else if !is_full(pages[0]) {
        strip_prs(pages[0])
    } else {
        strip_prs(pages[0]) + issues_collected(pages.drop_first())
    }
}

/// Every page of `pages` is full.
pub open spec fn all_full(pages: Seq<Seq<Issue>>) -> bool {
    forall|k: int| 0 <= k < pages.len() ==> is_full(#[trigger] pages[k])
}

/// The message of the error for a fetch that runs out of page numbers.
pub open spec fn too_many_pages_msg() -> Seq<char> {
    "the upstream listing has more pages than can be numbered"@
}

/// The state of a fetch between two page requests.
pub struct Pager {
    /// The number of the page to request next.
    pub page: u64,
    /// The issues collected so far.
    pub issues: Vec<Issue>,
    /// The pages received so far, as the upstream sent them.
    pub received: Ghost<Seq<Seq<Issue>>>,
}

/// What a fetch does after a page outcome.
pub enum PageStep {
    /// Request the next page.
    Next(Pager),
    /// The last page came: the fetch is complete.
    Done(Repository),
    /// The fetch failed; nothing collected is returned.
    Failed(IssueParserErr),
}

proof fn lemma_collect_push(a: Seq<Seq<Issue>>, p: Seq<Issue>)
    requires
        all_full(a),
    ensures
        issues_collected(a.push(p)) == issues_collected(a) + strip_prs(p),
        pages_requested(a.push(p)) == a.len() + 1 || is_full(p),
        records_received(a.push(p)) == records_received(a) + p.len(),
    decreases a.len(),
{
    if a.len() == 0 {
        assert(a.push(p).drop_first() =~= Seq::<Seq<Issue>>::empty());
        assert(issues_collected(a.push(p).drop_first()) == Seq::<Issue>::empty());
        assert(records_received(a.push(p).drop_first()) == 0);
        assert(strip_prs(p) + Seq::<Issue>::empty() =~= strip_prs(p));
        assert(issues_collected(a) + strip_prs(p) =~= strip_prs(p));
    } else {
        assert(is_full(a[0]));
        assert(a.push(p).drop_first() == a.drop_first().push(p));
        assert(a.push(p)[0] == a[0]);
        lemma_collect_push(a.drop_first(), p);
        assert(strip_prs(a[0]) + (issues_collected(a.drop_first()) + strip_prs(p)) =~= (strip_prs(
            a[0],
        ) + issues_collected(a.drop_first())) + strip_prs(p));
    }
}

impl Pager {
    /// The pager is consistent: the next page number follows the pages
    /// received, all of which were full, and the issues are those collected
    /// from them.
    pub open spec fn wf(&self) -> bool {
        &&& self.page as int == self.received@.len() + 1
        &&& all_full(self.received@)
        &&& self.issues@ == issues_collected(self.received@)
    }

    /// A fetch that has received nothing yet and asks for page 1.
    pub fn new() -> (r: Pager)
        ensures
            r.wf(),
            r.page == 1,
            r.received@ == Seq::<Seq<Issue>>::empty(),
    {
        Pager { page: 1, issues: Vec::new(), received: Ghost(Seq::empty()) }
    }

    /// The step after the outcome of requesting page `self.page`: an error
    /// ends the fetch; a page that is not full completes it; a full page asks
    /// for the next one. Pull requests are removed from each page after its
    /// size has been read.
    pub fn advance(self, outcome: Result<Vec<Issue>, IssueParserErr>) -> (r: PageStep)
        requires
            self.wf(),
        ensures
            match outcome {
                Err(e) => r == PageStep::Failed(e),
                Ok(p) => if !is_full(p@) {
                    r matches PageStep::Done(repo) && repo.issues@ == issues_collected(
                        self.received@.push(p@),
                    ) && pages_requested(self.received@.push(p@)) == self.page
                } else if self.page < u64::MAX {
                    r matches PageStep::Next(n) && n.wf() && n.page == self.page + 1
                        && n.received@ == self.received@.push(p@)
                } else {
                    r matches PageStep::Failed(e) && e.kind == ErrKind::Upstream && e.msg@
                        == too_many_pages_msg()
                },
            },
    {
        match outcome {
            Err(e) => PageStep::Failed(e),
            Ok(page_elems) => {
                let ghost raw = page_elems@;
                let fetched_number = page_elems.len();
                let mut kept = page_elems;
                remove_pull_requests(&mut kept);
                let mut issues = self.issues;
                issues.append(&mut kept);
                proof {
                    lemma_collect_push(self.received@, raw);
                }
                if fetched_number < PER_PAGE {
                    PageStep::Done(Repository { issues })
                } else if self.page == u64::MAX {
                    PageStep::Failed(
                        IssueParserErr::new(
                            ErrKind::Upstream,
                            "the upstream listing has more pages than can be numbered".to_owned(),
                        ),
                    )
                } else {
                    let next = Pager {
                        page: self.page + 1,
                        issues,
                        received: Ghost(self.received@.push(raw)),
                    };
                    proof {
                        assert(all_full(next.received@)) by {
                            assert forall|k: int| 0 <= k < next.received@.len() implies is_full(
                                #[trigger] next.received@[k],
                            ) by {
                                if k < self.received@.len() {
                                    assert(next.received@[k] == self.received@[k]);
                                }
                            }
                        }
                    }
                    PageStep::Next(next)
                }
            },
        }
    }
}

/// The address of page `page` of the issues of `repo`.
pub fn request_url(repo: &str, page: u64) -> (r: String)
    ensures
        r@ == page_url(repo@, page as nat),
{
    let mut r = "https://api.github.com/repos/".to_owned();
    r.append(repo);
    r.append("/issues?state=all&page=");
    let num = u64_decimal(page);
    r.append(num.as_str());
    r.append("&per_page=100");
    r
}

/// Reads the status of the response to a request of `url`.
pub fn check_status(status: u16, url: &str) -> (r: Result<(), IssueParserErr>)
    ensures
        match status_problem(status, url@) {
            None => r is Ok,
            Some((k, m)) => r matches Err(e) && e.kind == k && e.msg@ == m,
        },
{
    if status == 200 {
        Ok(())
    } else if status == 401 {
        Err(IssueParserErr::new(ErrKind::Auth, "Unauthorized token".to_owned()))
    } else if status == 404 {
        let mut msg = "'".to_owned();
        msg.append(url);
        msg.append("': not found.");
        Err(IssueParserErr::new(ErrKind::NotFound, msg))
    } else {
        let mut msg = "'".to_owned();
        msg.append(url);
        msg.append("': Something unexpected happened.");
        Err(IssueParserErr::new(ErrKind::Upstream, msg))
    }
}

/// The number of records in all of `pages`.
pub open spec fn total_len(pages: Seq<Seq<Issue>>) -> nat
    decreases pages.len(),
{
    if pages.len() == 0 {
        0
    } else {
        pages[0].len() + total_len(pages.drop_first())
    }
}

/// A fetch stops at the first page that is not full: when the upstream
/// answers full pages and then a shorter one, exactly those pages are
/// requested whatever it would answer after them, every record that they hold
/// is received, and nothing from later pages is collected.
pub proof fn lemma_pagination_stops(pages: Seq<Seq<Issue>>, later: Seq<Seq<Issue>>)
    requires
        pages.len() >= 1,
        all_full(pages.drop_last()),
        !is_full(pages.last()),
    ensures
        pages_requested(pages + later) == pages.len(),
        records_received(pages + later) == total_len(pages),
        issues_collected(pages + later) == issues_collected(pages),
    decreases pages.len(),
{
    let all = pages + later;
    assert(all[0] == pages[0]);
    if pages.len() == 1 {
        assert(!is_full(pages[0]));
        assert(pages.drop_first() =~= Seq::<Seq<Issue>>::empty());
        assert(total_len(pages.drop_first()) == 0);
    } else {
        assert(is_full(pages.drop_last()[0]));
        assert(all.drop_first() =~= pages.drop_first() + later);
        assert(pages.drop_first().drop_last() =~= pages.drop_last().drop_first());
        assert(all_full(pages.drop_first().drop_last())) by {
            assert forall|k: int| 0 <= k < pages.drop_first().drop_last().len() implies is_full(
                #[trigger] pages.drop_first().drop_last()[k],
            ) by {
                assert(pages.drop_first().drop_last()[k] == pages.drop_last()[k + 1]);
            }
        }
        lemma_pagination_stops(pages.drop_first(), later);
    }
}

} // verus!
