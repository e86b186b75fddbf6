//! Decisions around the download of a repository archive: where it comes
//! from, where it goes, what the record of commit dates gets, and which
//! downloads to try again.
use vstd::prelude::*;
use crate::commit_dates::{commit_date_line, record_line};
use crate::repo_search::{add_found, contains_pair, found_view};
use crate::text::{append_str, before, chars_of, contains, find_in, string_of};
use crate::time::{commit_date_format, format_naive_datetime, naive_datetime_to_string, valid_time, UtcTime};

verus! {

/// The API URL of the archive of `repo` (`owner/name`).
pub open spec fn zipball_url_spec(repo: Seq<char>) -> Seq<char> {
    "https://api.github.com/repos/"@ + repo + "/zipball"@
}

/// The API URL of the archive of `repo`.
pub fn zipball_url(repo: &str) -> (r: String)
    ensures
        r@ == zipball_url_spec(repo@),
{
    let mut s = String::new();
    append_str(&mut s, "https://api.github.com/repos/");
    append_str(&mut s, repo);
    append_str(&mut s, "/zipball");
    s
}

/// The directory that receives the archives of the owner of `repo`.
pub open spec fn parent_path_spec(repo: Seq<char>) -> Seq<char> {
    "/home/move/github_crawler/move_repo/"@ + before(repo, "/"@)
}

/// The directory that receives the archives of the owner of `repo`, which
/// names its owner before a `/`.
pub fn repo_parent_path(repo: &str) -> (r: String)
    requires
        contains(repo@, "/"@),
    ensures
        r@ == parent_path_spec(repo@),
{
    let cs = chars_of(repo);
    let slash = chars_of("/");
    assert(cs@.subrange(0, cs@.len() as int) =~= cs@);
    let end = match find_in(&cs, 0, cs.len(), &slash) {
        Some(i) => i,
        None => cs.len(),
    };
    let owner = string_of(&cs, 0, end);
    proof {
        if end < cs@.len() {
            assert(repo@.take(end as int) =~= owner@);
        } else {
            assert(repo@ =~= owner@);
        }
    }
    let mut s = String::new();
    append_str(&mut s, "/home/move/github_crawler/move_repo/");
    append_str(&mut s, owner.as_str());
    s
}

/// The line for the record of commit dates after extracting `repo`: usable
/// where the extraction succeeded, not usable where the repository is not
/// Move that the analysis can run on (error 1), none after other errors.
pub open spec fn commit_record_spec(repo: Seq<char>, date: UtcTime, unzip: Result<(), usize>) -> Option<
    Seq<char>,
> {
    let text = naive_datetime_to_string(date.secs, date.nanos, commit_date_format());
    match unzip {
        Ok(()) => Some(record_line(repo, text, true)),
        Err(code) => if code == 1 {
            Some(record_line(repo, text, false))
        } else {
            None
        },
    }
}

/// The line for the record of commit dates after extracting `repo`.
pub fn commit_record(repo: &str, date: UtcTime, unzip: Result<(), usize>) -> (r: Option<String>)
    requires
        valid_time(date),
    ensures
        r matches Some(l) ==> commit_record_spec(repo@, date, unzip) == Some(l@),
        r is None ==> commit_record_spec(repo@, date, unzip) is None,
{
    let usable = match unzip {
        Ok(()) => true,
        Err(code) => {
            if code == 1 {
                false
            } else {
                return None;
            }
        },
    };
    let text = format_naive_datetime(date, "%Y-%m-%dT%H:%M:%SZ");
    Some(commit_date_line(repo, text.as_str(), usable))
}

/// Adds a failed download to the set of downloads to try again.
pub fn add_failure(fails: &mut Vec<(String, UtcTime)>, repo: String, date: UtcTime)
    ensures
        found_view(final(fails)@) == add_found(found_view(old(fails)@), (repo@, date)),
{
    let ghost f = found_view(fails@);
    if contains_pair(fails, repo.as_str(), date) {
        return;
    }
    fails.push((repo, date));
    assert(found_view(fails@) =~= f.push((repo@, date)));
}

/// The most rounds of downloads the crawler makes.
pub open spec fn max_download_rounds() -> int {
    5
}

/// What the crawler does next, with `missing` downloads left after
/// `rounds` rounds: nothing when none is missing, another round while
/// fewer than five were made, else it gives up.
pub enum CrawlStep {
    Done,
    Download,
    GiveUp,
}

pub open spec fn crawl_step_spec(missing: nat, rounds: nat) -> CrawlStep {
    if missing == 0 {
        CrawlStep::Done
    } else if rounds < max_download_rounds() {
        CrawlStep::Download
    } else {
        CrawlStep::GiveUp
    }
}

/// What the crawler does next.
pub fn crawl_step(missing: usize, rounds: usize) -> (r: CrawlStep)
    ensures
        r == crawl_step_spec(missing as nat, rounds as nat),
{
    if missing == 0 {
        CrawlStep::Done
    } else if rounds < 5 {
        CrawlStep::Download
    } else {
        CrawlStep::GiveUp
    }
}

} // verus!
