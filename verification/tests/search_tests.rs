use move_crawler::code_search::{CodeSearch, CodeSearchResponse, File, GetCodeResponse};
use move_crawler::commit_dates::{UpdateDate, UpdateDates};
use move_crawler::repo_search::{
    graphql_query, repo_to_fetch_exec, size_filter_text, GetRepoResponse, GithubPageInfo, Repo,
    RepoSearch, RepoSearchResponse, ResponseData, SearchResponse,
};
use move_crawler::time::UtcTime;

fn file(path: &str, url: &str) -> File {
    File { path: path.to_string(), url: url.to_string() }
}

#[test]
fn code_search_pages_through_a_repository() {
    let mut s = CodeSearch::new(vec!["o/r".to_string()]);
    assert_eq!(
        s.next_request(),
        Some("https://api.github.com/search/code?q=language:move+repo:o/r&per_page=100".to_string())
    );
    s.on_response(CodeSearchResponse::Page {
        link: Some(b"<https://next/2>; rel=\"next\"".to_vec()),
        body: GetCodeResponse {
            files: vec![file("sources/a.move", "https://api.github.com/repos/o/r/contents/sources/a.move?ref=abc")],
            len: 2,
        },
    });
    assert_eq!(s.next_request(), Some("https://next/2".to_string()));
    s.on_response(CodeSearchResponse::Page {
        link: None,
        body: GetCodeResponse {
            files: vec![file("b.move", "https://api.github.com/repos/o/r/contents/b.move?ref=abc")],
            len: 2,
        },
    });
    // two files were reported and two were found before this request: one more request
    assert_eq!(
        s.next_request(),
        Some("https://api.github.com/search/code?q=language:move+repo:o/r".to_string())
    );
    s.on_response(CodeSearchResponse::Page { link: None, body: GetCodeResponse { files: vec![], len: 2 } });
    assert_eq!(s.next_request(), None);
    let results = s.into_results();
    assert_eq!(
        results,
        vec![(
            "o/r".to_string(),
            vec![
                "https://raw.githubusercontent.com/o/r/abc/sources/a.move".to_string(),
                "https://raw.githubusercontent.com/o/r/abc/b.move".to_string(),
            ]
        )]
    );
}

#[test]
fn code_search_retries_after_a_failure_and_skips_empty_repositories() {
    let mut s = CodeSearch::new(vec!["a/x".to_string(), "b/y".to_string()]);
    let first = s.next_request().unwrap();
    assert!(first.ends_with("repo:a/x&per_page=100"));
    s.on_response(CodeSearchResponse::Failed);
    assert_eq!(s.next_request(), Some(first));
    s.on_response(CodeSearchResponse::Page { link: None, body: GetCodeResponse { files: vec![], len: 0 } });
    assert_eq!(
        s.next_request(),
        Some("https://api.github.com/search/code?q=language:move+repo:b/y&per_page=100".to_string())
    );
    s.on_response(CodeSearchResponse::Page {
        link: None,
        body: GetCodeResponse { files: vec![file("m.move", "https://no-ref/m.move")], len: 1 },
    });
    // the file without a commit adds nothing, and the count of files found is still 0 < 1
    assert_eq!(
        s.next_request(),
        Some("https://api.github.com/search/code?q=language:move+repo:b/y".to_string())
    );
    let results = s.into_results();
    assert_eq!(results, vec![("a/x".to_string(), vec![]), ("b/y".to_string(), vec![])]);
}

fn repo(name: &str, pushed: &str) -> Repo {
    Repo { url: format!("https://github.com/{}", name), full_name: name.to_string(), description: None, last_update: pushed.to_string() }
}

fn page(repos: Vec<Repo>, next: bool, cursor: &str) -> RepoSearchResponse {
    RepoSearchResponse::Page(GetRepoResponse {
        data: ResponseData {
            search: SearchResponse {
                repositories: repos,
                page_info: GithubPageInfo { end_cursor: cursor.to_string(), has_next_page: next },
            },
        },
    })
}

#[test]
fn size_filters() {
    assert_eq!(size_filter_text(0), "0..5");
    assert_eq!(size_filter_text(45), "45..50");
    assert_eq!(size_filter_text(50), ">=50");
}

#[test]
fn query_fills_in_cursor_and_size() {
    let q = graphql_query("\"Y3Vy\"", "5..10");
    assert!(q.contains("search(query: \"language:move size:5..10\" type: REPOSITORY first: 100 after: \"Y3Vy\")"));
    assert!(q.starts_with("query\n"));
    assert!(!q.contains('#'));
}

#[test]
fn repository_search_walks_all_size_ranges() {
    let dates = UpdateDates::new();
    let mut s = RepoSearch::new();
    let mut queries = 0;
    while let Some(q) = s.next_query() {
        queries += 1;
        if queries == 1 {
            assert!(q.contains("size:0..5\" type: REPOSITORY first: 100 after: null)"));
            assert!(s.try_on_response(&page(vec![repo("a/b", "2024-01-01T00:00:00Z")], true, "c1"), &dates));
        } else if queries == 2 {
            assert!(q.contains("size:0..5\" type: REPOSITORY first: 100 after: \"c1\")"));
            s.on_response(&page(vec![repo("a/b", "2024-01-01T00:00:00Z")], false, "c2"), &dates);
        } else {
            if queries == 12 {
                assert!(q.contains("size:>=50\""));
            }
            s.on_response(&page(vec![], false, "z"), &dates);
        }
        assert!(queries < 20);
    }
    assert_eq!(queries, 12);
    let found = s.into_found();
    assert_eq!(found, vec![("a/b".to_string(), UtcTime { secs: 1704067200, nanos: 0 })]);
}

#[test]
fn unreadable_push_date_leaves_the_search_unchanged() {
    let dates = UpdateDates::new();
    let mut s = RepoSearch::new();
    s.next_query();
    assert!(!s.try_on_response(&page(vec![repo("a/b", "not a date")], false, "c"), &dates));
    assert!(s.next_query().unwrap().contains("after: null)"));
}

#[test]
fn which_repositories_to_download() {
    let mut dates = UpdateDates::new();
    dates.insert(UpdateDate { repo: "old/usable".to_string(), last_update: "2023-01-01T00:00:00Z".to_string(), usable: true });
    dates.insert(UpdateDate { repo: "old/foreign".to_string(), last_update: "2020-01-01T00:00:00Z".to_string(), usable: false });
    dates.insert(UpdateDate { repo: "new/usable".to_string(), last_update: "2025-01-01T00:00:00Z".to_string(), usable: true });
    let pushed = "2024-06-01T00:00:00Z";
    let t = UtcTime { secs: 1717200000, nanos: 0 };
    assert_eq!(repo_to_fetch_exec(&dates, &repo("old/usable", pushed)), Some(Some(("old/usable".to_string(), t))));
    assert_eq!(repo_to_fetch_exec(&dates, &repo("old/foreign", pushed)), Some(None));
    assert_eq!(repo_to_fetch_exec(&dates, &repo("new/usable", pushed)), Some(None));
    assert_eq!(repo_to_fetch_exec(&dates, &repo("unseen/repo", pushed)), Some(Some(("unseen/repo".to_string(), t))));
    assert_eq!(repo_to_fetch_exec(&dates, &repo("unseen/repo", " 2024-06-01T00:00:00 Z ")), Some(Some(("unseen/repo".to_string(), t))));
    let mut bad = UpdateDates::new();
    bad.insert(UpdateDate { repo: "x/y".to_string(), last_update: "garbage".to_string(), usable: true });
    assert_eq!(repo_to_fetch_exec(&bad, &repo("x/y", pushed)), None);
}

fn run_search(dates: &UpdateDates) -> Vec<(String, UtcTime)> {
    let pages = vec![
        page(vec![repo("a/b", "2024-01-01T00:00:00Z"), repo("c/d", "2024-03-01T00:00:00Z")], true, "c1"),
        page(vec![repo("e/f", "2024-05-01T00:00:00Z")], false, "c2"),
    ];
    let mut s = RepoSearch::new();
    let mut n = 0;
    while let Some(_) = s.next_query() {
        if n < pages.len() {
            assert!(s.try_on_response(&pages[n], dates));
        } else {
            s.on_response(&page(vec![], false, "z"), dates);
        }
        n += 1;
    }
    s.into_found()
}

#[test]
fn removing_records_finds_more() {
    let mut full = UpdateDates::new();
    full.insert(UpdateDate { repo: "a/b".to_string(), last_update: "2024-06-01T00:00:00Z".to_string(), usable: true });
    full.insert(UpdateDate { repo: "c/d".to_string(), last_update: "2020-01-01T00:00:00Z".to_string(), usable: false });
    let mut fewer = UpdateDates::new();
    fewer.insert(UpdateDate { repo: "c/d".to_string(), last_update: "2020-01-01T00:00:00Z".to_string(), usable: false });
    let with_full = run_search(&full);
    let with_fewer = run_search(&fewer);
    assert_eq!(with_full, vec![("e/f".to_string(), UtcTime { secs: 1714521600, nanos: 0 })]);
    for x in with_full.iter() {
        assert!(with_fewer.contains(x));
    }
    assert!(with_fewer.contains(&("a/b".to_string(), UtcTime { secs: 1704067200, nanos: 0 })));
    assert_eq!(with_fewer.len(), 2);
}
