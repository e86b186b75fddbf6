use move_crawler::commit_dates::UpdateDates;
use move_crawler::repo_search::{repo_to_fetch_exec, Repo};
use move_crawler::time::UtcTime;

#[test]
fn range_of_valid_times_matches_chrono() {
    for secs in [
        -8_334_601_228_801i64,
        -8_334_601_228_800,
        0,
        8_210_266_876_799,
        8_210_266_876_800,
        i64::MIN,
        i64::MAX,
    ]
    .iter()
    {
        let t = UtcTime { secs: *secs, nanos: 0 };
        assert_eq!(t.is_valid(), chrono::DateTime::from_timestamp(*secs, 0).is_some(), "{}", secs);
    }
    for (secs, nanos) in [(59i64, 1_500_000_000u32), (58, 1_500_000_000), (-1, 1_000_000_000), (0, 2_000_000_000)].iter() {
        let t = UtcTime { secs: *secs, nanos: *nanos };
        assert_eq!(t.is_valid(), chrono::DateTime::from_timestamp(*secs, *nanos).is_some());
    }
}

fn pushed(date: &str) -> Option<Option<(String, UtcTime)>> {
    let repo = Repo { url: String::new(), full_name: "o/r".to_string(), description: None, last_update: date.to_string() };
    repo_to_fetch_exec(&UpdateDates::new(), &repo)
}

#[test]
fn parses_github_dates() {
    assert_eq!(pushed("2024-01-02T03:04:05Z"), Some(Some(("o/r".to_string(), UtcTime { secs: 1704164645, nanos: 0 }))));
    assert_eq!(pushed("1969-12-31T23:59:59Z"), Some(Some(("o/r".to_string(), UtcTime { secs: -1, nanos: 0 }))));
    assert_eq!(pushed("2016-12-31T23:59:60Z"), Some(Some(("o/r".to_string(), UtcTime { secs: 1483228799, nanos: 1_000_000_000 }))));
    assert_eq!(pushed("yesterday"), None);
}

#[test]
fn order_of_times() {
    let a = UtcTime { secs: 10, nanos: 5 };
    let b = UtcTime { secs: 10, nanos: 6 };
    let c = UtcTime { secs: 11, nanos: 0 };
    assert!(a.is_before(&b));
    assert!(b.is_before(&c));
    assert!(!c.is_before(&a));
    assert!(!a.is_before(&a));
}

