//! The search for the Move files of repositories, page by page, through
//! GitHub's code search: which request comes next, and what a response adds
//! to the download links found so far.
//!
//! The requests themselves, the waits between them and the reading of the
//! JSON bodies are done by the caller; this module decides.
use vstd::prelude::*;
use crate::lookup::{position, Lookup};
use crate::link_header::{get_next_page_from_response_header, header_readable, next_page};
use crate::text::{append_str, chars_of, find, find_in, string_of};

verus! {

/// A file that the code search found: its path in the repository and the
/// API URL of its content, which names the commit after `?ref=`.
#[derive(Debug, Clone)]
pub struct File {
    pub path: String,
    pub url: String,
}

/// A page of code search results: the files on it and the total count.
#[derive(Debug, Clone)]
pub struct GetCodeResponse {
    pub files: Vec<File>,
    pub len: usize,
}

/// The outcome of a search request: a failure status, or a page with the
/// raw bytes of its `link` header.
pub enum CodeSearchResponse {
    Failed,
    Page { link: Option<Vec<u8>>, body: GetCodeResponse },
}

pub struct FileView {
    pub path: Seq<char>,
    pub url: Seq<char>,
}

impl View for File {
    type V = FileView;

    open spec fn view(&self) -> FileView {
        FileView { path: self.path@, url: self.url@ }
    }
}

pub enum ResponseView {
    Failed,
    Page { link: Option<Seq<u8>>, files: Seq<FileView>, len: usize },
}

impl View for CodeSearchResponse {
    type V = ResponseView;

    open spec fn view(&self) -> ResponseView {
        match self {
            CodeSearchResponse::Failed => ResponseView::Failed,
            CodeSearchResponse::Page { link, body } => ResponseView::Page {
                link: match link {
                    Some(b) => Some(b@),
                    None => None,
                },
                files: body.files@.map_values(|f: File| f@),
                len: body.len,
            },
        }
    }
}

/// The repository being searched: the link to its next page, the number of
/// files the search reported, and how many links it had when last asked.
pub struct PagingView {
    pub repo: Seq<char>,
    pub next_link: Option<Seq<char>>,
    pub file_count: usize,
    pub files_found: usize,
}

/// The search: the repositories, how many of them were started, the one
/// being paged, and the download links found per repository.
pub struct CodeSearchView {
    pub repos: Seq<Seq<char>>,
    pub next_repo: int,
    pub paging: Option<PagingView>,
    pub results: Seq<(Seq<char>, Seq<Seq<char>>)>,
}

/// The search stops taking new repositories once this many have links.
pub open spec fn max_repos() -> int {
    1001
}

pub open spec fn search_base() -> Seq<char> {
    "https://api.github.com/search/code?q=language:move+repo:"@
}

/// The first search request for a repository, with pages of 100 files.
pub open spec fn first_page_url(repo: Seq<char>) -> Seq<char> {
    search_base() + repo + "&per_page=100"@
}

/// The search request for a repository with the default page size.
pub open spec fn default_page_url(repo: Seq<char>) -> Seq<char> {
    search_base() + repo
}

/// The commit that a file's API URL names: what follows `?ref=`, or nothing.
pub open spec fn ref_id(url: Seq<char>) -> Seq<char> {
    match find(url, "?ref="@) {
        Some(i) => url.skip(i + 5),
        None => Seq::empty(),
    }
}

/// The raw download link of a file at a commit.
pub open spec fn raw_url(repo: Seq<char>, commit: Seq<char>, path: Seq<char>) -> Seq<char> {
    "https://raw.githubusercontent.com/"@ + repo + "/"@ + commit + "/"@ + path
}

/// The position of the links of `key` in `results`, searching from `i`.
pub open spec fn key_index(results: Seq<(Seq<char>, Seq<Seq<char>>)>, key: Seq<char>, i: int) -> Option<
    int,
>
    decreases results.len() - i,
{
    if i < 0 || i >= results.len() {
        None
    } else if results[i].0 == key {
        Some(i)
    } else {
        key_index(results, key, i + 1)
    }
}

pub proof fn lemma_key_index(results: Seq<(Seq<char>, Seq<Seq<char>>)>, key: Seq<char>, j: int)
    ensures
        key_index(results, key, j) matches Some(i) ==> 0 <= j <= i < results.len() && results[i].0
            == key,
    decreases results.len() - j,
{
    if 0 <= j < results.len() && results[j].0 != key {
        lemma_key_index(results, key, j + 1);
    }
}

/// `results` with an entry for `key` (`entry(key).or_insert(Vec::new())`).
pub open spec fn with_entry(results: Seq<(Seq<char>, Seq<Seq<char>>)>, key: Seq<char>) -> Seq<
    (Seq<char>, Seq<Seq<char>>),
> {
    if key_index(results, key, 0) is Some {
        results
    } else {
        results.push((key, seq![]))
    }
}

/// The position of the entry of `key` in `with_entry(results, key)`.
pub open spec fn entry_pos(results: Seq<(Seq<char>, Seq<Seq<char>>)>, key: Seq<char>) -> int {
    match key_index(results, key, 0) {
        Some(i) => i,
        None => results.len() as int,
    }
}

/// `results` with `url` added to the links of `key`.
pub open spec fn add_link(results: Seq<(Seq<char>, Seq<Seq<char>>)>, key: Seq<char>, url: Seq<char>) -> Seq<
    (Seq<char>, Seq<Seq<char>>),
> {
    let r = with_entry(results, key);
    let i = entry_pos(results, key);
    r.update(i, (key, r[i].1.push(url)))
}

/// Whether the repository being paged needs another request.
pub open spec fn keep_paging(p: PagingView, results: Seq<(Seq<char>, Seq<Seq<char>>)>) -> bool {
    p.files_found < p.file_count && results.len() < max_repos() && p.file_count != 0
}

/// The next request of the search, and the search after it is sent; `None`
/// when every repository is done.
pub open spec fn next_request_spec(st: CodeSearchView) -> (CodeSearchView, Option<Seq<char>>)
    decreases (st.repos.len() - st.next_repo) as nat, (if st.paging is Some {
            1int
        } else {
            0int
        }),
{
    match st.paging {
        Some(p) => if keep_paging(p, st.results) {
            let r = with_entry(st.results, p.repo);
            let found = r[entry_pos(st.results, p.repo)].1.len() as usize;
            let link = match p.next_link {
                Some(l) => l,
                None => default_page_url(p.repo),
            };
            (
                CodeSearchView {
                    paging: Some(PagingView { files_found: found, ..p }),
                    results: r,
                    ..st
                },
                Some(link),
            )
        } else {
            next_request_spec(CodeSearchView { paging: None, ..st })
        },
        None => if 0 <= st.next_repo < st.repos.len() {
            let repo = st.repos[st.next_repo];
            next_request_spec(
                CodeSearchView {
                    next_repo: st.next_repo + 1,
                    paging: Some(
                        PagingView {
                            repo: repo,
                            next_link: Some(first_page_url(repo)),
                            file_count: 1,
                            files_found: 0,
                        },
                    ),
                    ..st
                },
            )
        } else {
            (st, None)
        },
    }
}

/// The files of a page taken in order: a file whose URL names no commit
/// drops the link to the next page; any other adds its raw link.
pub open spec fn take_files(
    link: Option<Seq<char>>,
    results: Seq<(Seq<char>, Seq<Seq<char>>)>,
    repo: Seq<char>,
    files: Seq<FileView>,
) -> (Option<Seq<char>>, Seq<(Seq<char>, Seq<Seq<char>>)>)
    decreases files.len(),
{
    if files.len() == 0 {
        (link, results)
    } else {
        let (l, r) = take_files(link, results, repo, files.drop_last());
        let f = files.last();
        if ref_id(f.url).len() == 0 {
            (None, r)
        } else {
            (l, add_link(r, repo, raw_url(repo, ref_id(f.url), f.path)))
        }
    }
}

/// The search after a response to its last request.
pub open spec fn on_response_spec(st: CodeSearchView, resp: ResponseView) -> CodeSearchView {
    match (st.paging, resp) {
        (Some(p), ResponseView::Page { link, files, len }) => {
            let count = if p.file_count == 1 {
                len
            } else {
                p.file_count
            };
            let (l, r) = take_files(next_page(link), st.results, p.repo, files);
            CodeSearchView {
                paging: Some(PagingView { next_link: l, file_count: count, ..p }),
                results: r,
                ..st
            }
        },
        _ => st,
    }
}

pub open spec fn response_readable(resp: ResponseView) -> bool {
    resp matches ResponseView::Page { link, .. } ==> header_readable(link)
}

/// The search over `repos`, in that order.
pub open spec fn initial_search(repos: Seq<Seq<char>>) -> CodeSearchView {
    CodeSearchView { repos: repos, next_repo: 0, paging: None, results: seq![] }
}

// ---------------------------------------------------------------------------
// What the search keeps
// ---------------------------------------------------------------------------
/// `url` is the raw link of a file of `repo` at a named commit.
pub open spec fn is_raw_link(repo: Seq<char>, url: Seq<char>) -> bool {
    exists|commit: Seq<char>, path: Seq<char>|
        commit.len() > 0 && url == #[trigger] raw_url(repo, commit, path)
}

/// The links found so far form a map from repositories to links, and every
/// link of a repository is a raw link of a file of it at a named commit.
pub open spec fn results_wf(r: Seq<(Seq<char>, Seq<Seq<char>>)>) -> bool {
    &&& forall|i: int, j: int| 0 <= i < j < r.len() ==> (#[trigger] r[i]).0 != (#[trigger] r[j]).0
    &&& forall|i: int, k: int|
        0 <= i < r.len() && 0 <= k < r[i].1.len() ==> is_raw_link(r[i].0, #[trigger] r[i].1[k])
}

/// Every repository with links is one of `repos`.
pub open spec fn keys_in(r: Seq<(Seq<char>, Seq<Seq<char>>)>, repos: Seq<Seq<char>>) -> bool {
    forall|i: int| 0 <= i < r.len() ==> repos.contains(#[trigger] r[i].0)
}

/// What every state of the search keeps: the links are a map of raw links,
/// and they, and the repository being paged, belong to the repositories
/// searched.
pub open spec fn code_search_wf(st: CodeSearchView) -> bool {
    &&& results_wf(st.results)
    &&& keys_in(st.results, st.repos)
    &&& (st.paging matches Some(p) ==> st.repos.contains(p.repo))
}

proof fn lemma_key_index_none(results: Seq<(Seq<char>, Seq<Seq<char>>)>, key: Seq<char>, j: int)
    requires
        0 <= j,
        key_index(results, key, j) is None,
    ensures
        forall|i: int| j <= i < results.len() ==> results[i].0 != key,
    decreases results.len() - j,
{
    if j < results.len() {
        lemma_key_index_none(results, key, j + 1);
    }
}

proof fn lemma_with_entry_keeps(r: Seq<(Seq<char>, Seq<Seq<char>>)>, key: Seq<char>)
    requires
        results_wf(r),
    ensures
        results_wf(with_entry(r, key)),
        0 <= entry_pos(r, key) < with_entry(r, key).len(),
        with_entry(r, key)[entry_pos(r, key)].0 == key,
        with_entry(r, key).len() >= r.len(),
        forall|i: int| 0 <= i < r.len() ==> with_entry(r, key)[i] == r[i],
        forall|i: int| r.len() <= i < with_entry(r, key).len() ==> with_entry(r, key)[i].0 == key,
{
    lemma_key_index(r, key, 0);
    if key_index(r, key, 0) is None {
        lemma_key_index_none(r, key, 0);
        let w = r.push((key, seq![]));
        assert forall|i: int, j: int| 0 <= i < j < w.len() implies (#[trigger] w[i]).0 != (
        #[trigger] w[j]).0 by {
            if j == r.len() {
                assert(r[i].0 != key);
            } else {
                assert(w[i] == r[i] && w[j] == r[j]);
            }
        }
        assert forall|i: int, k: int|
            0 <= i < w.len() && 0 <= k < w[i].1.len() implies is_raw_link(
            w[i].0,
            #[trigger] w[i].1[k],
        ) by {
            assert(w[i] == r[i]);
        }
    }
}

/// Adding a raw link of `key` keeps the map of raw links, and adds no
/// repository but `key`.
proof fn lemma_add_link_keeps(r: Seq<(Seq<char>, Seq<Seq<char>>)>, key: Seq<char>, url: Seq<char>)
    requires
        results_wf(r),
        is_raw_link(key, url),
    ensures
        results_wf(add_link(r, key, url)),
        forall|i: int|
            0 <= i < add_link(r, key, url).len() ==> add_link(r, key, url)[i].0 == key || (i
                < r.len() && add_link(r, key, url)[i].0 == r[i].0),
{
    lemma_with_entry_keeps(r, key);
    let w = with_entry(r, key);
    let p = entry_pos(r, key);
    let a = add_link(r, key, url);
    assert forall|i: int, j: int| 0 <= i < j < a.len() implies (#[trigger] a[i]).0 != (
    #[trigger] a[j]).0 by {
        assert(a[i].0 == w[i].0 && a[j].0 == w[j].0);
    }
    assert forall|i: int, k: int|
        0 <= i < a.len() && 0 <= k < a[i].1.len() implies is_raw_link(
        a[i].0,
        #[trigger] a[i].1[k],
    ) by {
        if i == p {
            if k < w[p].1.len() {
                assert(a[i].1[k] == w[p].1[k]);
            }
        } else {
            assert(a[i] == w[i]);
        }
    }
    assert forall|i: int| 0 <= i < a.len() implies a[i].0 == key || (i < r.len() && a[i].0
        == r[i].0) by {
        assert(a[i].0 == w[i].0);
    }
}

proof fn lemma_take_files_keeps(
    link: Option<Seq<char>>,
    results: Seq<(Seq<char>, Seq<Seq<char>>)>,
    repo: Seq<char>,
    files: Seq<FileView>,
    repos: Seq<Seq<char>>,
)
    requires
        results_wf(results),
        keys_in(results, repos),
        repos.contains(repo),
    ensures
        results_wf(take_files(link, results, repo, files).1),
        keys_in(take_files(link, results, repo, files).1, repos),
    decreases files.len(),
{
    if files.len() > 0 {
        lemma_take_files_keeps(link, results, repo, files.drop_last(), repos);
        let (l, r) = take_files(link, results, repo, files.drop_last());
        let f = files.last();
        let c = ref_id(f.url);
        if c.len() != 0 {
            let u = raw_url(repo, c, f.path);
            assert(is_raw_link(repo, u));
            lemma_add_link_keeps(r, repo, u);
            let a = add_link(r, repo, u);
            assert forall|i: int| 0 <= i < a.len() implies repos.contains(#[trigger] a[i].0) by {
                if a[i].0 != repo {
                    assert(repos.contains(r[i].0));
                }
            }
        }
    }
}

/// The search over `repos` starts in a state that it keeps.
pub proof fn lemma_initial_search_wf(repos: Seq<Seq<char>>)
    ensures
        code_search_wf(initial_search(repos)),
{
}

/// Asking for the next request keeps the links a map of raw links of the
/// repositories searched, and pages only a repository searched.
pub proof fn lemma_next_request_keeps_links(st: CodeSearchView)
    requires
        code_search_wf(st),
    ensures
        code_search_wf(next_request_spec(st).0),
    decreases (st.repos.len() - st.next_repo) as nat, (if st.paging is Some {
            1int
        } else {
            0int
        }),
{
    match st.paging {
        Some(p) => if keep_paging(p, st.results) {
            lemma_with_entry_keeps(st.results, p.repo);
            let w = with_entry(st.results, p.repo);
            assert forall|i: int| 0 <= i < w.len() implies st.repos.contains(#[trigger] w[i].0) by {
                if i < st.results.len() {
                    assert(w[i] == st.results[i]);
                }
            }
        } else {
            lemma_next_request_keeps_links(CodeSearchView { paging: None, ..st });
        },
        None => if 0 <= st.next_repo < st.repos.len() {
            let repo = st.repos[st.next_repo];
            assert(st.repos.contains(repo));
            lemma_next_request_keeps_links(
                CodeSearchView {
                    next_repo: st.next_repo + 1,
                    paging: Some(
                        PagingView {
                            repo: repo,
                            next_link: Some(first_page_url(repo)),
                            file_count: 1,
                            files_found: 0,
                        },
                    ),
                    ..st
                },
            );
        },
    }
}

/// Taking in a response keeps the links a map from the repositories
/// searched to raw links of their files at named commits.
pub proof fn lemma_on_response_keeps_links(st: CodeSearchView, resp: ResponseView)
    requires
        code_search_wf(st),
    ensures
        code_search_wf(on_response_spec(st, resp)),
{
    match (st.paging, resp) {
        (Some(p), ResponseView::Page { link, files, len }) => {
            lemma_take_files_keeps(next_page(link), st.results, p.repo, files, st.repos);
        },
        _ => {},
    }
}

struct Paging {
    repo: String,
    next_link: Option<String>,
    file_count: usize,
    files_found: usize,
}

/// The state of a code search.
pub struct CodeSearch {
    repos: Vec<String>,
    next_repo: usize,
    paging: Option<Paging>,
    results: Vec<(String, Vec<String>)>,
}


pub open spec fn opt_text(o: Option<String>) -> Option<Seq<char>> {
    match o {
        Some(s) => Some(s@),
        None => None,
    }
}

pub open spec fn results_view(r: Seq<(String, Vec<String>)>) -> Seq<(Seq<char>, Seq<Seq<char>>)> {
    r.map_values(|e: (String, Vec<String>)| (e.0@, e.1@.map_values(|u: String| u@)))
}

impl View for CodeSearch {
    type V = CodeSearchView;

    closed spec fn view(&self) -> CodeSearchView {
        CodeSearchView {
            repos: self.repos@.map_values(|r: String| r@),
            next_repo: self.next_repo as int,
            paging: match self.paging {
                Some(p) => Some(
                    PagingView {
                        repo: p.repo@,
                        next_link: opt_text(p.next_link),
                        file_count: p.file_count,
                        files_found: p.files_found,
                    },
                ),
                None => None,
            },
            results: results_view(self.results@),
        }
    }
}

/// The first entry of `key` from `j` on is at `i`.
proof fn lemma_key_index_at(results: Seq<(Seq<char>, Seq<Seq<char>>)>, key: Seq<char>, j: int, i: int)
    requires
        0 <= j <= i < results.len(),
        results[i].0 == key,
        forall|k: int| j <= k < i ==> results[k].0 != key,
    ensures
        key_index(results, key, j) == Some(i),
    decreases i - j,
{
    if j < i {
        lemma_key_index_at(results, key, j + 1, i);
    }
}

/// Without an entry of `key` from `j` on, there is none to find.
proof fn lemma_key_index_absent(results: Seq<(Seq<char>, Seq<Seq<char>>)>, key: Seq<char>, j: int)
    requires
        0 <= j,
        forall|k: int| j <= k < results.len() ==> results[k].0 != key,
    ensures
        key_index(results, key, j) is None,
    decreases results.len() - j,
{
    if j < results.len() {
        lemma_key_index_absent(results, key, j + 1);
    }
}

/// The position of `key` in `results`, if it has an entry.
fn find_key(results: &Vec<(String, Vec<String>)>, key: &str) -> (r: Option<usize>)
    ensures
        r matches Some(i) ==> key_index(results_view(results@), key@, 0) == Some(i as int),
        r is None ==> key_index(results_view(results@), key@, 0) is None,
{
    let ghost rv = results_view(results@);
    let r = position(results, key);
    proof {
        assert forall|k: int| 0 <= k < rv.len() implies (rv[k].0 == key@) == results@[k].found_by(
            key,
        ) by {}
        match r {
            Some(i) => lemma_key_index_at(rv, key@, 0, i as int),
            None => lemma_key_index_absent(rv, key@, 0),
        }
    }
    r
}

/// The links of `key` added to, creating its entry where it has none.
fn add_link_exec(results: &mut Vec<(String, Vec<String>)>, key: &str, url: String) -> (pos: usize)
    ensures
        results_view(final(results)@) == add_link(results_view(old(results)@), key@, url@),
{
    let ghost rv = results_view(results@);
    proof {
        lemma_key_index(rv, key@, 0);
    }
    let pos = match find_key(results, key) {
        Some(i) => i,
        None => {
            let e: (String, Vec<String>) = (key.to_owned(), Vec::new());
            assert(e.1@.map_values(|u: String| u@) =~= Seq::<Seq<char>>::empty());
            results.push(e);
            proof {
                assert(results_view(results@) =~= rv.push((key@, seq![])));
            }
            results.len() - 1
        },
    };
    let ghost before = results@;
    let mut entry = (String::new(), Vec::new());
    let mut tmp = Vec::new();
    std::mem::swap(&mut tmp, results);
    tmp.set_and_swap(pos, &mut entry);
    let ghost old_links = entry.1@;
    entry.1.push(url);
    proof {
        assert(entry.1@.map_values(|u: String| u@) =~= old_links.map_values(|u: String| u@).push(
            url@,
        ));
    }
    tmp.set(pos, entry);
    std::mem::swap(&mut tmp, results);
    proof {
        let w = with_entry(rv, key@);
        assert(w == results_view(before));
        assert(before[pos as int].0@ == key@);
        assert(results_view(results@) =~= w.update(pos as int, (key@, w[pos as int].1.push(url@))));
    }
    pos
}

/// The commit that a file's API URL names, or an empty text.
fn ref_id_exec(url: &str) -> (r: String)
    ensures
        r@ == ref_id(url@),
{
    let cs = chars_of(url);
    let marker = chars_of("?ref=");
    proof {
        reveal_strlit("?ref=");
        assert(cs@.subrange(0, cs@.len() as int) =~= cs@);
    }
    match find_in(&cs, 0, cs.len(), &marker) {
        Some(i) => {
            let r = string_of(&cs, i + 5, cs.len());
            assert(cs@.skip(i + 5) =~= r@);
            r
        },
        None => String::new(),
    }
}

/// The raw download link of `path` at `commit` in `repo`.
fn raw_url_exec(repo: &str, commit: &str, path: &str) -> (r: String)
    ensures
        r@ == raw_url(repo@, commit@, path@),
{
    let mut s = String::new();
    append_str(&mut s, "https://raw.githubusercontent.com/");
    append_str(&mut s, repo);
    append_str(&mut s, "/");
    append_str(&mut s, commit);
    append_str(&mut s, "/");
    append_str(&mut s, path);
    s
}

impl CodeSearch {
    /// A search over `repos`, in that order.
    pub fn new(repos: Vec<String>) -> (r: CodeSearch)
        ensures
            r@ == initial_search(repos@.map_values(|s: String| s@)),
    {
        let r = CodeSearch { repos, next_repo: 0, paging: None, results: Vec::new() };
        assert(results_view(r.results@) =~= seq![]);
        r
    }

    /// The URL to request next, or `None` when the search is done.
    pub fn next_request(&mut self) -> (r: Option<String>)
        ensures
            next_request_spec(old(self)@) == (final(self)@, opt_text(r)),
    {
        loop
            invariant
                next_request_spec(self@) == next_request_spec(old(self)@),
            decreases (self.repos@.len() - self.next_repo) as nat, (if self.paging is Some {
                    1int
                } else {
                    0int
                }),
        {
            let ghost before = self@;
            match self.paging.take() {
                Some(p) => {
                    if p.files_found < p.file_count && self.results.len() < 1001 && p.file_count
                        != 0 {
                        let ghost rv = results_view(self.results@);
                        proof {
                            lemma_key_index(rv, p.repo@, 0);
                        }
                        let i = match find_key(&self.results, p.repo.as_str()) {
                            Some(i) => i,
                            None => {
                                let e: (String, Vec<String>) = (p.repo.clone(), Vec::new());
                                assert(e.1@.map_values(|u: String| u@) =~= Seq::<Seq<char>>::empty());
                                self.results.push(e);
                                proof {
                                    assert(results_view(self.results@) =~= rv.push(
                                        (p.repo@, seq![]),
                                    ));
                                }
                                self.results.len() - 1
                            },
                        };
                        let found = self.results[i].1.len();
                        let link = match &p.next_link {
                            Some(l) => l.clone(),
                            None => {
                                let mut s = String::new();
                                append_str(
                                    &mut s,
                                    "https://api.github.com/search/code?q=language:move+repo:",
                                );
                                append_str(&mut s, p.repo.as_str());
                                s
                            },
                        };
                        proof {
                            assert(results_view(self.results@)[i as int].1.len()
                                == self.results@[i as int].1@.len());
                        }
                        self.paging = Some(Paging { files_found: found, ..p });
                        return Some(link);
                    }
                    assert(self@ == CodeSearchView { paging: None, ..before });
                },
                None => {
                    if self.next_repo < self.repos.len() {
                        let repo = self.repos[self.next_repo].clone();
                        let mut first = String::new();
                        append_str(
                            &mut first,
                            "https://api.github.com/search/code?q=language:move+repo:",
                        );
                        append_str(&mut first, repo.as_str());
                        append_str(&mut first, "&per_page=100");
                        self.next_repo = self.next_repo + 1;
                        self.paging = Some(
                            Paging { repo, next_link: Some(first), file_count: 1, files_found: 0 },
                        );
                    } else {
                        return None;
                    }
                },
            }
        }
    }

    /// The search after the response to the request `next_request` gave.
    pub fn on_response(&mut self, resp: CodeSearchResponse)
        requires
            response_readable(resp@),
        ensures
            final(self)@ == on_response_spec(old(self)@, resp@),
    {
        let ghost before = self@;
        let ghost rv = resp@;
        let mut p = match self.paging.take() {
            Some(p) => p,
            None => {
                return;
            },
        };
        match resp {
            CodeSearchResponse::Failed => {
                self.paging = Some(p);
            },
            CodeSearchResponse::Page { link, body } => {
                let ghost p0 = before.paging.unwrap();
                let next = match &link {
                    Some(b) => get_next_page_from_response_header(Some(b.as_slice())),
                    None => None,
                };
                proof {
                    assert(opt_text(next) == next_page(
                        match link {
                            Some(b) => Some(b@),
                            None => None,
                        },
                    ));
                }
                if p.file_count == 1 {
                    p.file_count = body.len;
                }
                let ghost files = body.files@.map_values(|f: File| f@);
                let mut l = next;
                let mut i: usize = 0;
                assert(files.take(0) =~= Seq::<FileView>::empty());
                while i < body.files.len()
                    invariant
                        i <= body.files@.len(),
                        files == body.files@.map_values(|f: File| f@),
                        self.paging is None,
                        self@.repos == before.repos,
                        self@.next_repo == before.next_repo,
                        p.repo@ == p0.repo,
                        take_files(opt_text(next), before.results, p.repo@, files.take(i as int))
                            == (opt_text(l), results_view(self.results@)),
                    decreases body.files.len() - i,
                {
                    proof {
                        assert(files.take(i + 1).drop_last() =~= files.take(i as int));
                        assert(files.take(i + 1).last() == body.files@[i as int]@);
                    }
                    let f = &body.files[i];
                    let commit = ref_id_exec(f.url.as_str());
                    if commit.as_str().is_empty() {
                        l = None;
                    } else {
                        let u = raw_url_exec(p.repo.as_str(), commit.as_str(), f.path.as_str());
                        add_link_exec(&mut self.results, p.repo.as_str(), u);
                    }
                    i = i + 1;
                }
                assert(files.take(i as int) =~= files);
                p.next_link = l;
                self.paging = Some(p);
            },
        }
    }

    /// The download links found, per repository, in the order in which the
    /// repositories got their first link or request.
    pub fn into_results(self) -> (r: Vec<(String, Vec<String>)>)
        ensures
            results_view(r@) == self@.results,
    {
        self.results
    }
}

} // verus!
