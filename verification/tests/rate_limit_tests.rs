use move_crawler::rate_limit::{
    handle_response_headers, rate_limit_headers_readable, rate_limit_wait, RateLimitHeaders,
};
use move_crawler::time::UtcTime;

fn headers(remaining: Option<&str>, reset: Option<&str>, retry: Option<&str>) -> RateLimitHeaders {
    RateLimitHeaders {
        remaining: remaining.map(|s| s.as_bytes().to_vec()),
        reset: reset.map(|s| s.as_bytes().to_vec()),
        retry_after: retry.map(|s| s.as_bytes().to_vec()),
    }
}

fn at(secs: i64, nanos: u32) -> UtcTime {
    UtcTime { secs, nanos }
}

#[test]
fn plenty_left_waits_the_default() {
    let w = rate_limit_wait(&headers(Some("4999"), Some("1700000100"), None), 200, &at(1700000000, 0));
    assert_eq!(w.unwrap().nanos(), 500_000_000);
}

#[test]
fn exhausted_waits_until_one_second_after_reset() {
    let w = rate_limit_wait(&headers(Some("0"), Some("1700000100"), None), 403, &at(1700000000, 250_000_000))
        .unwrap();
    assert_eq!(w.nanos(), 100_750_000_000);
    assert_eq!(w.num_milliseconds(), 100_750);
}

#[test]
fn exhausted_with_past_reset_waits_the_default() {
    let w = rate_limit_wait(&headers(Some("0"), Some("1699999000"), None), 200, &at(1700000000, 0)).unwrap();
    assert_eq!(w.nanos(), 500_000_000);
}

#[test]
fn missing_headers_count_as_exhausted_now() {
    let w = rate_limit_wait(&headers(None, None, None), 200, &at(1700000000, 400_000_000)).unwrap();
    assert_eq!(w.nanos(), 600_000_000);
}

#[test]
fn retry_after_is_read_as_a_second() {
    let w = rate_limit_wait(&headers(Some("10"), None, Some("1700000030")), 403, &at(1700000000, 0)).unwrap();
    assert_eq!(w.nanos(), 31_000_000_000);
}

#[test]
fn failure_without_retry_after_doubles_the_default() {
    let w = rate_limit_wait(&headers(Some("10"), None, None), 502, &at(1700000000, 0)).unwrap();
    assert_eq!(w.nanos(), 1_000_000_000);
    let ok = rate_limit_wait(&headers(Some("10"), None, None), 204, &at(1700000000, 0)).unwrap();
    assert_eq!(ok.nanos(), 500_000_000);
}

#[test]
fn unreadable_headers() {
    let now = at(1700000000, 0);
    assert!(rate_limit_wait(&headers(Some("-1"), None, None), 200, &now).is_none());
    assert!(rate_limit_wait(&headers(Some("5"), Some("soon"), None), 200, &now).is_none());
    assert!(rate_limit_wait(&headers(Some("5"), Some("9000000000000"), None), 200, &now).is_none());
    assert!(rate_limit_wait(&headers(Some("5"), None, Some("x")), 200, &now).is_none());
    assert!(rate_limit_wait(&headers(Some("0"), None, Some("x")), 200, &now).is_some());
    assert!(!rate_limit_headers_readable(&headers(Some("5"), None, Some("x"))));
    assert!(rate_limit_headers_readable(&headers(Some("0"), None, Some("x"))));
}

#[test]
fn negative_waits_round_toward_zero() {
    let w = rate_limit_wait(&headers(Some("1"), None, Some("1699999990")), 200, &at(1700000000, 999_999))
        .unwrap();
    // never below the default
    assert_eq!(w.nanos(), 500_000_000);
}

#[test]
fn live_wait_is_at_least_the_default() {
    let w = handle_response_headers(&headers(Some("100"), None, None), 200);
    assert!(w.nanos() >= 500_000_000);
    assert_eq!(w.num_milliseconds(), 500);
}
