//! The search for Move repositories through GitHub's GraphQL API, by ranges
//! of repository size and page by page: which query comes next, and which
//! repositories a page adds to those to download.
//!
//! The requests, the waits between them and the reading of the JSON bodies
//! are done by the caller; this module decides.
use vstd::prelude::*;
use crate::commit_dates::UpdateDates;
use crate::lookup::{position, Lookup};
use crate::numbers::{decimal, decimal_text};
use crate::text::{append_str, replace_all, replace_text, trim, trim_text};
use crate::time::{
    commit_date_format, earlier, naive_datetime_from_str, parse_naive_datetime, UtcTime,
};

verus! {

/// A repository as the search reports it.
#[derive(Debug, Clone)]
pub struct Repo {
    pub url: String,
    /// `owner/name`.
    pub full_name: String,
    pub description: Option<String>,
    /// When it was last pushed to, as GitHub writes it.
    pub last_update: String,
}

/// Where the next page of results starts, and whether there is one.
#[derive(Debug, Clone)]
pub struct GithubPageInfo {
    pub end_cursor: String,
    pub has_next_page: bool,
}

#[derive(Debug, Clone)]
pub struct SearchResponse {
    pub repositories: Vec<Repo>,
    pub page_info: GithubPageInfo,
}

#[derive(Debug, Clone)]
pub struct ResponseData {
    pub search: SearchResponse,
}

/// A page of repository search results.
#[derive(Debug, Clone)]
pub struct GetRepoResponse {
    pub data: ResponseData,
}

/// The outcome of a search request: a failure status, or a page.
pub enum RepoSearchResponse {
    Failed,
    Page(GetRepoResponse),
}

pub struct RepoView {
    pub full_name: Seq<char>,
    pub last_update: Seq<char>,
}

impl View for Repo {
    type V = RepoView;

    open spec fn view(&self) -> RepoView {
        RepoView { full_name: self.full_name@, last_update: self.last_update@ }
    }
}

pub enum RepoResponseView {
    Failed,
    Page { repos: Seq<RepoView>, has_next_page: bool, end_cursor: Seq<char> },
}

impl View for RepoSearchResponse {
    type V = RepoResponseView;

    open spec fn view(&self) -> RepoResponseView {
        match self {
            RepoSearchResponse::Failed => RepoResponseView::Failed,
            RepoSearchResponse::Page(r) => RepoResponseView::Page {
                repos: r.data.search.repositories@.map_values(|x: Repo| x@),
                has_next_page: r.data.search.page_info.has_next_page,
                end_cursor: r.data.search.page_info.end_cursor@,
            },
        }
    }
}

/// The search: the start of the current size range (in KB, ranges of 5),
/// whether a range is being paged, the cursor and size filter of the next
/// query, and the repositories found to download with their last push.
pub struct RepoSearchView {
    pub size_start: int,
    pub keep_searching: bool,
    pub in_range: bool,
    pub has_next_page: bool,
    pub end_cursor: Seq<char>,
    pub size_query: Seq<char>,
    pub found: Seq<(Seq<char>, UtcTime)>,
}

/// The GraphQL query, with `#sizeRange` and `#cursor` to fill in.
pub open spec fn query_template() -> Seq<char> {
    "query\n                            {\n                                search(query: \"language:move size:#sizeRange\" type: REPOSITORY first: 100 after: #cursor)\n                                {\n                                    nodes\n                                    {\n                                        ... on Repository\n                                        {\n                                            url,\n                                            nameWithOwner,\n                                            description,\n                                            pushedAt\n                                        }\n                                    }\n                                    pageInfo\n                                    {\n                                        endCursor\n                                        startCursor\n                                        hasNextPage\n                                        hasPreviousPage\n                                    }\n                                }\n                            }"@
}

/// The query for a page after `cursor` among repositories of `size`.
pub open spec fn query_for(cursor: Seq<char>, size: Seq<char>) -> Seq<char> {
    replace_all(replace_all(query_template(), "#cursor"@, cursor), "#sizeRange"@, size)
}

/// The size filter of the range starting at `start`: the last range, from
/// 50 on, is open.
pub open spec fn size_filter(start: int) -> Seq<char> {
    if start < 50 {
        decimal(start as nat) + ".."@ + decimal((start + 5) as nat)
    } else {
        ">="@ + decimal(start as nat)
    }
}

/// The format of GitHub's push dates.
pub open spec fn pushed_at_format() -> Seq<char> {
    "%Y-%m-%dT%H:%M:%S Z"@
}

pub open spec fn parsed_time(s: Seq<char>, fmt: Seq<char>) -> Option<UtcTime> {
    match naive_datetime_from_str(s, fmt) {
        Some((secs, nanos)) => Some(UtcTime { secs: secs, nanos: nanos }),
        None => None,
    }
}

/// What a found repository adds to the downloads: itself with its last
/// push where it has no record, or where it is usable Move with a newer
/// push than recorded; `None` where a date cannot be read.
pub open spec fn repo_to_fetch(dates: Map<Seq<char>, (Seq<char>, bool)>, repo: RepoView) -> Option<
    Option<(Seq<char>, UtcTime)>,
> {
    match parsed_time(trim(repo.last_update), pushed_at_format()) {
        Some(current) => if dates.contains_key(repo.full_name) {
            let (recorded, usable) = dates[repo.full_name];
            if usable {
                match parsed_time(trim(recorded), commit_date_format()) {
                    Some(last) => Some(
                        if earlier(last, current) {
                            Some((repo.full_name, current))
                        } else {
                            None
                        },
                    ),
                    None => None,
                }
            } else {
                Some(None)
            }
        } else {
            Some(Some((repo.full_name, current)))
        },
        None => None,
    }
}

/// `found` with `x`, as a set.
pub open spec fn add_found(found: Seq<(Seq<char>, UtcTime)>, x: (Seq<char>, UtcTime)) -> Seq<
    (Seq<char>, UtcTime),
> {
    if found.contains(x) {
        found
    } else {
        found.push(x)
    }
}

/// The repositories of a page taken in order.
pub open spec fn take_repos(
    found: Seq<(Seq<char>, UtcTime)>,
    dates: Map<Seq<char>, (Seq<char>, bool)>,
    repos: Seq<RepoView>,
) -> Option<Seq<(Seq<char>, UtcTime)>>
    decreases repos.len(),
{
    if repos.len() == 0 {
        Some(found)
    } else {
        match (take_repos(found, dates, repos.drop_last()), repo_to_fetch(dates, repos.last())) {
            (Some(f), Some(Some(x))) => Some(add_found(f, x)),
            (Some(f), Some(None)) => Some(f),
            _ => None,
        }
    }
}

pub open spec fn initial_repo_search() -> RepoSearchView {
    RepoSearchView {
        size_start: 0,
        keep_searching: true,
        in_range: false,
        has_next_page: false,
        end_cursor: seq![],
        size_query: seq![],
        found: seq![],
    }
}

/// The start of the range at `st.size_start`.
pub open spec fn start_range(st: RepoSearchView) -> RepoSearchView {
    RepoSearchView {
        in_range: true,
        has_next_page: true,
        end_cursor: "null"@,
        size_query: size_filter(st.size_start),
        keep_searching: st.size_start < 50,
        ..st
    }
}

/// The query to send next and the search after it; `None` when done.
pub open spec fn next_query_spec(st: RepoSearchView) -> (RepoSearchView, Option<Seq<char>>) {
    if st.in_range && st.has_next_page {
        (st, Some(query_for(st.end_cursor, st.size_query)))
    } else {
        let s1 = if st.in_range {
            RepoSearchView { in_range: false, size_start: st.size_start + 5, ..st }
        } else {
            st
        };
        if s1.keep_searching {
            let s2 = start_range(s1);
            (s2, Some(query_for(s2.end_cursor, s2.size_query)))
        } else {
            (s1, None)
        }
    }
}

/// The search after the response to its last query, given the record of
/// commit dates; `None` where a date on the page cannot be read.
pub open spec fn on_page_spec(
    st: RepoSearchView,
    dates: Map<Seq<char>, (Seq<char>, bool)>,
    resp: RepoResponseView,
) -> Option<RepoSearchView> {
    match resp {
        RepoResponseView::Failed => Some(st),
        RepoResponseView::Page { repos, has_next_page, end_cursor } => match take_repos(
            st.found,
            dates,
            repos,
        ) {
            Some(f) => Some(
                RepoSearchView {
                    found: f,
                    has_next_page: has_next_page,
                    end_cursor: "\""@ + end_cursor + "\""@,
                    ..st
                },
            ),
            None => None,
        },
    }
}

// ---------------------------------------------------------------------------
// What the search keeps
// ---------------------------------------------------------------------------
/// A repository is due for download at `t`: it has no record, or it is
/// recorded as usable Move with a last commit earlier than `t`.
pub open spec fn due(dates: Map<Seq<char>, (Seq<char>, bool)>, x: (Seq<char>, UtcTime)) -> bool {
    !dates.contains_key(x.0) || {
        &&& dates[x.0].1
        &&& parsed_time(trim(dates[x.0].0), commit_date_format()) matches Some(last) && earlier(
            last,
            x.1,
        )
    }
}

/// The repositories found form a set, and each is due for download.
pub open spec fn found_wf(dates: Map<Seq<char>, (Seq<char>, bool)>, found: Seq<(Seq<char>, UtcTime)>) -> bool {
    &&& found.no_duplicates()
    &&& forall|i: int| 0 <= i < found.len() ==> due(dates, #[trigger] found[i])
}

/// Adding to a set keeps it a set, and keeps what was in it.
pub proof fn lemma_add_found_set(found: Seq<(Seq<char>, UtcTime)>, x: (Seq<char>, UtcTime))
    requires
        found.no_duplicates(),
    ensures
        add_found(found, x).no_duplicates(),
        add_found(found, x).contains(x),
        forall|i: int| 0 <= i < found.len() ==> add_found(found, x).contains(#[trigger] found[i]),
        forall|y: (Seq<char>, UtcTime)|
            add_found(found, x).contains(y) ==> y == x || found.contains(y),
{
    if !found.contains(x) {
        let f = found.push(x);
        assert forall|i: int, j: int| 0 <= i < f.len() && 0 <= j < f.len() && i != j implies f[i]
            != f[j] by {
            if j == found.len() {
                assert(!found.contains(x));
                assert(f[i] == found[i]);
            } else if i == found.len() {
                assert(f[j] == found[j]);
            }
        }
        assert(f[found.len() as int] == x);
        assert forall|i: int| 0 <= i < found.len() implies f.contains(#[trigger] found[i]) by {
            assert(f[i] == found[i]);
        }
        assert forall|y: (Seq<char>, UtcTime)| f.contains(y) implies y == x || found.contains(y) by {
            let k = choose|k: int| 0 <= k < f.len() && f[k] == y;
            if k < found.len() {
                assert(found[k] == y);
            }
        }
    }
}

/// What a repository adds is due for download.
proof fn lemma_repo_to_fetch_due(dates: Map<Seq<char>, (Seq<char>, bool)>, repo: RepoView)
    ensures
        repo_to_fetch(dates, repo) matches Some(Some(x)) ==> due(dates, x),
{
}

/// The repositories of a page keep the found ones a set of repositories due
/// for download.
pub proof fn lemma_take_repos_keeps(
    found: Seq<(Seq<char>, UtcTime)>,
    dates: Map<Seq<char>, (Seq<char>, bool)>,
    repos: Seq<RepoView>,
)
    requires
        found_wf(dates, found),
    ensures
        take_repos(found, dates, repos) matches Some(f) ==> found_wf(dates, f),
    decreases repos.len(),
{
    if repos.len() > 0 {
        lemma_take_repos_keeps(found, dates, repos.drop_last());
        if let Some(f) = take_repos(found, dates, repos.drop_last()) {
            lemma_repo_to_fetch_due(dates, repos.last());
            if let Some(Some(x)) = repo_to_fetch(dates, repos.last()) {
                lemma_add_found_set(f, x);
                let g = add_found(f, x);
                assert forall|i: int| 0 <= i < g.len() implies due(dates, #[trigger] g[i]) by {
                    assert(g.contains(g[i]));
                    if g[i] != x {
                        let k = choose|k: int| 0 <= k < f.len() && f[k] == g[i];
                        assert(due(dates, f[k]));
                    }
                }
            }
        }
    }
}

/// Every step of the search keeps the repositories found a set of
/// repositories due for download.
pub proof fn lemma_search_keeps_found(
    st: RepoSearchView,
    dates: Map<Seq<char>, (Seq<char>, bool)>,
    resp: RepoResponseView,
)
    requires
        found_wf(dates, st.found),
    ensures
        found_wf(dates, next_query_spec(st).0.found),
        on_page_spec(st, dates, resp) matches Some(s) ==> found_wf(dates, s.found),
{
    if let RepoResponseView::Page { repos, .. } = resp {
        lemma_take_repos_keeps(st.found, dates, repos);
    }
}

/// A request that fails is sent again: after a failed response to a query,
/// the search has found nothing more, and its next query is the one that
/// failed.
pub proof fn lemma_failed_query_is_retried(st: RepoSearchView, dates: Map<Seq<char>, (Seq<char>, bool)>)
    ensures
        next_query_spec(st).1 matches Some(q) ==> (on_page_spec(
            next_query_spec(st).0,
            dates,
            RepoResponseView::Failed,
        ) matches Some(s) && s.found == next_query_spec(st).0.found && next_query_spec(s).1 == Some(
            q,
        )),
{
}

// ---------------------------------------------------------------------------
// Fewer records, more downloads
// ---------------------------------------------------------------------------
/// Every repository of `f1` is in `f2`.
pub open spec fn found_within(f1: Seq<(Seq<char>, UtcTime)>, f2: Seq<(Seq<char>, UtcTime)>) -> bool {
    forall|x: (Seq<char>, UtcTime)| f1.contains(x) ==> f2.contains(x)
}

/// Two searches are at the same point (range, page and next query), whatever
/// they have found.
pub open spec fn same_point(a: RepoSearchView, b: RepoSearchView) -> bool {
    &&& a.size_start == b.size_start
    &&& a.keep_searching == b.keep_searching
    &&& a.in_range == b.in_range
    &&& a.has_next_page == b.has_next_page
    &&& a.end_cursor == b.end_cursor
    &&& a.size_query == b.size_query
}

/// The search after a query for each response of `resps`, in order; `None`
/// where a date on a page cannot be read.
pub open spec fn search_after(
    st: RepoSearchView,
    dates: Map<Seq<char>, (Seq<char>, bool)>,
    resps: Seq<RepoResponseView>,
) -> Option<RepoSearchView>
    decreases resps.len(),
{
    if resps.len() == 0 {
        Some(st)
    } else {
        match search_after(st, dates, resps.drop_last()) {
            Some(s) => on_page_spec(next_query_spec(s).0, dates, resps.last()),
            None => None,
        }
    }
}

/// What `add_found` holds.
proof fn lemma_add_found_contains(found: Seq<(Seq<char>, UtcTime)>, x: (Seq<char>, UtcTime))
    ensures
        forall|y: (Seq<char>, UtcTime)|
            add_found(found, x).contains(y) <==> (y == x || found.contains(y)),
{
    if !found.contains(x) {
        let f = found.push(x);
        assert(f[found.len() as int] == x);
        assert forall|y: (Seq<char>, UtcTime)| f.contains(y) <==> (y == x || found.contains(y)) by {
            if f.contains(y) {
                let k = choose|k: int| 0 <= k < f.len() && f[k] == y;
                if k < found.len() {
                    assert(found[k] == y);
                }
            }
            if found.contains(y) {
                let k = choose|k: int| 0 <= k < found.len() && found[k] == y;
                assert(f[k] == y);
            }
        }
    }
}

/// With some records removed, a repository that was added is added the same,
/// and one that could be read still can.
proof fn lemma_repo_to_fetch_fewer_records(
    d1: Map<Seq<char>, (Seq<char>, bool)>,
    d2: Map<Seq<char>, (Seq<char>, bool)>,
    repo: RepoView,
)
    requires
        d2.submap_of(d1),
    ensures
        repo_to_fetch(d1, repo) is Some ==> repo_to_fetch(d2, repo) is Some,
        repo_to_fetch(d1, repo) matches Some(Some(x)) ==> repo_to_fetch(d2, repo) == Some(
            Some(x),
        ),
{
    if d2.contains_key(repo.full_name) {
        assert(d1.contains_key(repo.full_name) && d2[repo.full_name] == d1[repo.full_name]);
    }
}

/// With some records removed, and starting from at least the repositories
/// found, a page adds at least the same repositories.
proof fn lemma_take_repos_fewer_records(
    f1: Seq<(Seq<char>, UtcTime)>,
    f2: Seq<(Seq<char>, UtcTime)>,
    d1: Map<Seq<char>, (Seq<char>, bool)>,
    d2: Map<Seq<char>, (Seq<char>, bool)>,
    repos: Seq<RepoView>,
)
    requires
        d2.submap_of(d1),
        found_within(f1, f2),
    ensures
        take_repos(f1, d1, repos) matches Some(g1) ==> (take_repos(f2, d2, repos) matches Some(g2)
            && found_within(g1, g2)),
    decreases repos.len(),
{
    if repos.len() > 0 {
        lemma_take_repos_fewer_records(f1, f2, d1, d2, repos.drop_last());
        lemma_repo_to_fetch_fewer_records(d1, d2, repos.last());
        if let (Some(g1), Some(g2)) = (
            take_repos(f1, d1, repos.drop_last()),
            take_repos(f2, d2, repos.drop_last()),
        ) {
            match (repo_to_fetch(d1, repos.last()), repo_to_fetch(d2, repos.last())) {
                (Some(Some(x)), _) => {
                    lemma_add_found_contains(g1, x);
                    lemma_add_found_contains(g2, x);
                    assert forall|y: (Seq<char>, UtcTime)| add_found(g1, x).contains(
                        y,
                    ) implies add_found(g2, x).contains(y) by {
                        if y != x {
                            assert(g1.contains(y));
                        }
                    }
                },
                (Some(None), Some(Some(z))) => {
                    lemma_add_found_contains(g2, z);
                    assert forall|y: (Seq<char>, UtcTime)| g1.contains(y) implies add_found(
                        g2,
                        z,
                    ).contains(y) by {
                        assert(g2.contains(y));
                    }
                },
                _ => {},
            }
        }
    }
}

/// Removing records can only enlarge what the search finds: two searches at
/// the same point, the second with at least the repositories of the first
/// and with some of its records removed, that get the same responses, stay
/// at the same point, and the second finds at least what the first finds;
/// where the first can read every page, so can the second.
pub proof fn lemma_fewer_records_find_more(
    st1: RepoSearchView,
    st2: RepoSearchView,
    d1: Map<Seq<char>, (Seq<char>, bool)>,
    d2: Map<Seq<char>, (Seq<char>, bool)>,
    resps: Seq<RepoResponseView>,
)
    requires
        same_point(st1, st2),
        found_within(st1.found, st2.found),
        d2.submap_of(d1),
    ensures
        search_after(st1, d1, resps) matches Some(a) ==> (search_after(st2, d2, resps) matches Some(
            b,
        ) && same_point(a, b) && found_within(a.found, b.found)),
    decreases resps.len(),
{
    if resps.len() > 0 {
        lemma_fewer_records_find_more(st1, st2, d1, d2, resps.drop_last());
        if let (Some(a), Some(b)) = (
            search_after(st1, d1, resps.drop_last()),
            search_after(st2, d2, resps.drop_last()),
        ) {
            let a1 = next_query_spec(a).0;
            let b1 = next_query_spec(b).0;
            assert(same_point(a1, b1));
            assert(a1.found == a.found && b1.found == b.found);
            if let RepoResponseView::Page { repos, .. } = resps.last() {
                lemma_take_repos_fewer_records(a1.found, b1.found, d1, d2, repos);
            }
        }
    }
}

/// The states that the search passes through: size ranges start at
/// multiples of 5, up to 50, the range from 50 being the last.
pub open spec fn search_wf(st: RepoSearchView) -> bool {
    &&& st.size_start % 5 == 0
    &&& 0 <= st.size_start <= 55
    &&& (st.keep_searching ==> st.size_start <= 50)
    &&& (st.keep_searching && st.in_range ==> st.size_start <= 45)
    &&& (st.in_range ==> st.size_start <= 50)
}

/// Every step of the search keeps it within the size ranges.
pub proof fn lemma_steps_keep_ranges(
    st: RepoSearchView,
    dates: Map<Seq<char>, (Seq<char>, bool)>,
    resp: RepoResponseView,
)
    requires
        search_wf(st),
    ensures
        search_wf(next_query_spec(st).0),
        on_page_spec(st, dates, resp) matches Some(s) ==> search_wf(s),
{
}

/// The state of a repository search.
pub struct RepoSearch {
    size_start: u32,
    keep_searching: bool,
    in_range: bool,
    has_next_page: bool,
    end_cursor: String,
    size_query: String,
    found: Vec<(String, UtcTime)>,
}

pub open spec fn found_view(f: Seq<(String, UtcTime)>) -> Seq<(Seq<char>, UtcTime)> {
    f.map_values(|e: (String, UtcTime)| (e.0@, e.1))
}

impl View for RepoSearch {
    type V = RepoSearchView;

    closed spec fn view(&self) -> RepoSearchView {
        RepoSearchView {
            size_start: self.size_start as int,
            keep_searching: self.keep_searching,
            in_range: self.in_range,
            has_next_page: self.has_next_page,
            end_cursor: self.end_cursor@,
            size_query: self.size_query@,
            found: found_view(self.found@),
        }
    }
}

fn query_template_text() -> (r: &'static str)
    ensures
        r@ == query_template(),
{
    "query\n                            {\n                                search(query: \"language:move size:#sizeRange\" type: REPOSITORY first: 100 after: #cursor)\n                                {\n                                    nodes\n                                    {\n                                        ... on Repository\n                                        {\n                                            url,\n                                            nameWithOwner,\n                                            description,\n                                            pushedAt\n                                        }\n                                    }\n                                    pageInfo\n                                    {\n                                        endCursor\n                                        startCursor\n                                        hasNextPage\n                                        hasPreviousPage\n                                    }\n                                }\n                            }"
}

/// The query for a page after `cursor` among repositories of `size`.
pub fn graphql_query(cursor: &str, size: &str) -> (r: String)
    ensures
        r@ == query_for(cursor@, size@),
{
    proof {
        reveal_strlit("#cursor");
        reveal_strlit("#sizeRange");
    }
    let q = replace_text(query_template_text(), "#cursor", cursor);
    replace_text(q.as_str(), "#sizeRange", size)
}

/// The size filter of the range starting at `start`.
pub fn size_filter_text(start: u32) -> (r: String)
    ensures
        r@ == size_filter(start as int),
{
    let mut s = String::new();
    if start < 50 {
        let a = decimal_text(start);
        let b = decimal_text(start + 5);
        append_str(&mut s, a.as_str());
        append_str(&mut s, "..");
        append_str(&mut s, b.as_str());
    } else {
        let a = decimal_text(start);
        append_str(&mut s, ">=");
        append_str(&mut s, a.as_str());
    }
    s
}

/// What a found repository adds to the downloads, given the record of
/// commit dates; `None` where a date cannot be read.
pub fn repo_to_fetch_exec(dates: &UpdateDates, repo: &Repo) -> (r: Option<
    Option<(String, UtcTime)>,
>)
    ensures
        r is None <==> repo_to_fetch(dates@, repo@) is None,
        r matches Some(o) ==> repo_to_fetch(dates@, repo@) == Some(
            match o {
                Some(x) => Some((x.0@, x.1)),
                None => None,
            },
        ),
{
    let t = trim_text(repo.last_update.as_str());
    let current = match parse_naive_datetime(t.as_str(), "%Y-%m-%dT%H:%M:%S Z") {
        Some(c) => c,
        None => {
            return None;
        },
    };
    match dates.get(repo.full_name.as_str()) {
        Some(d) => {
            if d.usable {
                let t2 = trim_text(d.last_update.as_str());
                match parse_naive_datetime(t2.as_str(), "%Y-%m-%dT%H:%M:%SZ") {
                    Some(last) => {
                        if last.is_before(&current) {
                            Some(Some((repo.full_name.clone(), current)))
                        } else {
                            Some(None)
                        }
                    },
                    None => None,
                }
            } else {
                Some(None)
            }
        },
        None => Some(Some((repo.full_name.clone(), current))),
    }
}

impl RepoSearch {
    /// The search is always at a state that `search_wf` describes.
    #[verifier::type_invariant]
    closed spec fn wf(self) -> bool {
        search_wf(self@)
    }

    /// A search that has not started: the first range starts at size 0.
    pub fn new() -> (r: RepoSearch)
        ensures
            r@ == initial_repo_search(),
    {
        let r = RepoSearch {
            size_start: 0,
            keep_searching: true,
            in_range: false,
            has_next_page: false,
            end_cursor: String::new(),
            size_query: String::new(),
            found: Vec::new(),
        };
        assert(found_view(r.found@) =~= seq![]);
        r
    }

    /// The GraphQL query to send next, or `None` when the search is done.
    pub fn next_query(&mut self) -> (r: Option<String>)
        ensures
            next_query_spec(old(self)@) == (final(self)@, match r {
                Some(q) => Some(q@),
                None => None,
            }),
    {
        proof {
            use_type_invariant(&*self);
        }
        if !(self.in_range && self.has_next_page) {
            if self.in_range {
                self.in_range = false;
                self.size_start = self.size_start + 5;
            }
            if !self.keep_searching {
                return None;
            }
            self.keep_searching = self.size_start < 50;
            self.in_range = true;
            self.has_next_page = true;
            self.end_cursor = "null".to_owned();
            self.size_query = size_filter_text(self.size_start);
        }
        Some(graphql_query(self.end_cursor.as_str(), self.size_query.as_str()))
    }

    /// The search after the response to its last query; false, leaving the
    /// search as it was, where a date on the page cannot be read.
    pub fn try_on_response(&mut self, resp: &RepoSearchResponse, dates: &UpdateDates) -> (ok: bool)
        ensures
            ok == on_page_spec(old(self)@, dates@, resp@) is Some,
            ok ==> on_page_spec(old(self)@, dates@, resp@) == Some(final(self)@),
            !ok ==> final(self)@ == old(self)@,
    {
        proof {
            use_type_invariant(&*self);
        }
        let page = match resp {
            RepoSearchResponse::Failed => {
                return true;
            },
            RepoSearchResponse::Page(p) => p,
        };
        let repos = &page.data.search.repositories;
        let ghost rs = repos@.map_values(|x: Repo| x@);
        assert(resp@ == RepoResponseView::Page {
            repos: rs,
            has_next_page: page.data.search.page_info.has_next_page,
            end_cursor: page.data.search.page_info.end_cursor@,
        });
        let mut picks: Vec<Option<(String, UtcTime)>> = Vec::new();
        let mut i: usize = 0;
        while i < repos.len()
            invariant
                i <= repos@.len(),
                rs == repos@.map_values(|x: Repo| x@),
                self@ == old(self)@,
                resp@ == (RepoResponseView::Page {
                    repos: rs,
                    has_next_page: page.data.search.page_info.has_next_page,
                    end_cursor: page.data.search.page_info.end_cursor@,
                }),
                picks@.len() == i,
                forall|j: int|
                    0 <= j < i ==> repo_to_fetch(dates@, #[trigger] rs[j]) == Some(
                        match picks@[j] {
                            Some(x) => Some((x.0@, x.1)),
                            None => None,
                        },
                    ),
            decreases repos.len() - i,
        {
            match repo_to_fetch_exec(dates, &repos[i]) {
                Some(o) => {
                    picks.push(o);
                },
                None => {
                    proof {
                        lemma_take_repos_stops(self@.found, dates@, rs, i as int);
                    }
                    return false;
                },
            }
            i = i + 1;
        }
        let ghost start = found_view(self.found@);
        let mut found: Vec<(String, UtcTime)> = Vec::new();
        std::mem::swap(&mut found, &mut self.found);
        let mut k: usize = 0;
        while k < picks.len()
            invariant
                k <= picks@.len() == rs.len(),
                self@ == (RepoSearchView { found: found_view(self.found@), ..old(self)@ }),
                forall|j: int|
                    0 <= j < picks@.len() ==> repo_to_fetch(dates@, #[trigger] rs[j]) == Some(
                        match picks@[j] {
                            Some(x) => Some((x.0@, x.1)),
                            None => None,
                        },
                    ),
                take_repos(start, dates@, rs.take(k as int)) == Some(found_view(found@)),
            decreases picks.len() - k,
        {
            proof {
                assert(rs.take(k + 1).drop_last() =~= rs.take(k as int));
                assert(rs.take(k + 1).last() == rs[k as int]);
            }
            match &picks[k] {
                Some(x) => {
                    let present = contains_pair(&found, x.0.as_str(), x.1);
                    if !present {
                        let ghost f = found_view(found@);
                        found.push((x.0.clone(), x.1));
                        proof {
                            assert(found_view(found@) =~= f.push((x.0@, x.1)));
                        }
                    }
                },
                None => {},
            }
            k = k + 1;
        }
        self.found = found;
        assert(rs.take(k as int) =~= rs);
        self.has_next_page = page.data.search.page_info.has_next_page;
        let mut cursor = String::new();
        append_str(&mut cursor, "\"");
        append_str(&mut cursor, page.data.search.page_info.end_cursor.as_str());
        append_str(&mut cursor, "\"");
        self.end_cursor = cursor;
        true
    }

    /// The search after the response to its last query.
    pub fn on_response(&mut self, resp: &RepoSearchResponse, dates: &UpdateDates)
        requires
            on_page_spec(old(self)@, dates@, resp@) is Some,
        ensures
            on_page_spec(old(self)@, dates@, resp@) == Some(final(self)@),
    {
        let ok = self.try_on_response(resp, dates);
        assert(ok);
    }

    /// The repositories to download, each with its last push, none twice.
    pub fn into_found(self) -> (r: Vec<(String, UtcTime)>)
        ensures
            found_view(r@) == self@.found,
    {
        self.found
    }
}

/// Where a repository on the page cannot be read, the page cannot.
proof fn lemma_take_repos_stops(
    found: Seq<(Seq<char>, UtcTime)>,
    dates: Map<Seq<char>, (Seq<char>, bool)>,
    repos: Seq<RepoView>,
    i: int,
)
    requires
        0 <= i < repos.len(),
        repo_to_fetch(dates, repos[i]) is None,
    ensures
        take_repos(found, dates, repos) is None,
    decreases repos.len(),
{
    if i < repos.len() - 1 {
        lemma_take_repos_stops(found, dates, repos.drop_last(), i);
    }
}

/// Whether `found` holds the pair (`name`, `t`).
pub(crate) fn contains_pair(found: &Vec<(String, UtcTime)>, name: &str, t: UtcTime) -> (r: bool)
    ensures
        r == found_view(found@).contains((name@, t)),
{
    let ghost fv = found_view(found@);
    match position(found, (name, t)) {
        Some(i) => {
            assert(fv[i as int] == (name@, t));
            true
        },
        None => {
            proof {
                if fv.contains((name@, t)) {
                    let j = choose|j: int| 0 <= j < fv.len() && fv[j] == (name@, t);
                    assert(!found@[j].found_by((name, t)));
                }
            }
            false
        },
    }
}

} // verus!
