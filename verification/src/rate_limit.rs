//! How long to wait before the next request to GitHub's API, from the
//! rate-limit headers and the status of the last response.
use vstd::prelude::*;
use crate::numbers::{parse_i64, parse_i64_spec, parse_u32, parse_u32_spec};
use crate::time::{
    max_timestamp, min_timestamp, nanos_per_sec, timestamp_in_range, utc_now, UtcTime,
};

verus! {

/// The raw values of the headers that the rate limit reads, each the bytes
/// of the first header of that name, if the response has one.
pub struct RateLimitHeaders {
    /// `x-ratelimit-remaining`: requests left in the current window.
    pub remaining: Option<Vec<u8>>,
    /// `x-ratelimit-reset`: the second (Unix time) at which the window resets.
    pub reset: Option<Vec<u8>>,
    /// `retry-after`, read as a second in Unix time.
    pub retry_after: Option<Vec<u8>>,
}

pub struct RateLimitHeadersView {
    pub remaining: Option<Seq<u8>>,
    pub reset: Option<Seq<u8>>,
    pub retry_after: Option<Seq<u8>>,
}

pub open spec fn bytes_view(b: Option<Vec<u8>>) -> Option<Seq<u8>> {
    match b {
        Some(v) => Some(v@),
        None => None,
    }
}

impl View for RateLimitHeaders {
    type V = RateLimitHeadersView;

    open spec fn view(&self) -> RateLimitHeadersView {
        RateLimitHeadersView {
            remaining: bytes_view(self.remaining),
            reset: bytes_view(self.reset),
            retry_after: bytes_view(self.retry_after),
        }
    }
}

/// The bound on any wait computed here, in nanoseconds: more than the span
/// of the instants that chrono represents.
pub open spec fn max_wait_nanos() -> int {
    20_000_000_000_000_000_000_000
}

/// A span of time, in nanoseconds (chrono's `TimeDelta`).
pub struct WaitTime {
    nanos: i128,
}

impl WaitTime {
    #[verifier::type_invariant]
    spec fn bounded(self) -> bool {
        -max_wait_nanos() <= self.nanos <= max_wait_nanos()
    }

    pub closed spec fn spec_nanos(self) -> int {
        self.nanos as int
    }

    /// The span in nanoseconds.
    pub fn nanos(&self) -> (r: i128)
        ensures
            r == self.spec_nanos(),
            -max_wait_nanos() <= r <= max_wait_nanos(),
    {
        proof {
            use_type_invariant(self);
        }
        self.nanos
    }

    /// The whole milliseconds of the span, rounded toward zero
    /// (`TimeDelta::num_milliseconds`).
    pub fn num_milliseconds(&self) -> (r: i64)
        ensures
            r == trunc_div(self.spec_nanos(), 1_000_000),
    {
        proof {
            use_type_invariant(self);
        }
        let q = self.nanos / 1_000_000;
        proof {
            lemma_trunc_div_bounds(self.nanos as int, 1_000_000);
        }
        q as i64
    }
}

/// Division rounded toward zero, as Rust's `/` on integers.
pub open spec fn trunc_div(a: int, b: int) -> int {
    if a >= 0 {
        a / b
    } else {
        -((-a) / b)
    }
}

proof fn lemma_trunc_div_bounds(a: int, b: int)
    requires
        b == 1_000_000,
        -max_wait_nanos() <= a <= max_wait_nanos(),
    ensures
        -100_000_000_000_000_000 <= trunc_div(a, b) <= 100_000_000_000_000_000,
{
    assert(0 <= (if a >= 0 { a } else { -a }) / b <= 100_000_000_000_000_000) by (nonlinear_arith)
        requires
            b == 1_000_000,
            -max_wait_nanos() <= a <= max_wait_nanos(),
    ;
}

/// The wait when nothing calls for another: 500 ms.
pub open spec fn default_wait() -> int {
    500_000_000
}

pub open spec fn status_is_success(status: u16) -> bool {
    200 <= status <= 299
}

pub open spec fn max_int(a: int, b: int) -> int {
    if a >= b {
        a
    } else {
        b
    }
}

/// The requests left, a missing header counting as none.
pub open spec fn remaining_spec(h: RateLimitHeadersView) -> Option<u32> {
    match h.remaining {
        Some(b) => parse_u32_spec(b),
        None => Some(0u32),
    }
}

/// The reset second, a missing header counting as the current second.
pub open spec fn reset_spec(h: RateLimitHeadersView, now_secs: i64) -> Option<i64> {
    match h.reset {
        Some(b) => parse_i64_spec(b),
        None => Some(now_secs),
    }
}

/// The wait until one second after the second `at` (Unix time), seen from
/// `now`, in nanoseconds.
pub open spec fn wait_until(at: int, now: UtcTime) -> int {
    at * nanos_per_sec() - (now.secs * nanos_per_sec() + now.nanos) + nanos_per_sec()
}

/// The wait in nanoseconds, `None` where the headers cannot be read: a
/// header that is not a number of its type, or a second that chrono cannot
/// represent.
///
/// With no requests left, the wait runs to one second after the reset; else
/// a `retry-after` runs it to one second after that second; else a failed
/// request doubles the default; never less than the default.
pub open spec fn rate_limit_wait_spec(h: RateLimitHeadersView, status: u16, now: UtcTime) -> Option<
    int,
> {
    match (remaining_spec(h), reset_spec(h, now.secs)) {
        (Some(remaining), Some(reset)) => if !timestamp_in_range(reset as int) {
            None
        } else if remaining == 0 {
            Some(max_int(wait_until(reset as int, now), default_wait()))
        } else {
            match h.retry_after {
                Some(b) => match parse_i64_spec(b) {
                    Some(at) => if timestamp_in_range(at as int) {
                        Some(max_int(default_wait(), wait_until(at as int, now)))
                    } else {
                        None
                    },
                    None => None,
                },
                None => if !status_is_success(status) {
                    Some(max_int(default_wait(), 2 * default_wait()))
                } else {
                    Some(default_wait())
                },
            }
        },
        _ => None,
    }
}

/// Whether the headers can be read, whatever the current time.
pub open spec fn headers_readable(h: RateLimitHeadersView) -> bool {
    &&& remaining_spec(h) is Some
    &&& (h.reset matches Some(b) ==> (parse_i64_spec(b) matches Some(r) && timestamp_in_range(
        r as int,
    )))
    &&& (remaining_spec(h) != Some(0u32) ==> (h.retry_after matches Some(b) ==> (parse_i64_spec(
        b,
    ) matches Some(a) && timestamp_in_range(a as int))))
}

/// An instant that the clock can yield.
pub open spec fn clock_time(now: UtcTime) -> bool {
    0 <= now.secs <= max_timestamp() && now.nanos < nanos_per_sec()
}

/// Readable headers give a wait at any time that the clock can yield, and
/// only they do.
pub proof fn lemma_readable_iff_wait(h: RateLimitHeadersView, status: u16, now: UtcTime)
    requires
        clock_time(now),
    ensures
        headers_readable(h) <==> rate_limit_wait_spec(h, status, now) is Some,
{
}

/// The wait is never shorter than the default.
pub proof fn lemma_wait_at_least_default(h: RateLimitHeadersView, status: u16, now: UtcTime)
    requires
        rate_limit_wait_spec(h, status, now) is Some,
    ensures
        rate_limit_wait_spec(h, status, now).unwrap() >= default_wait(),
{
}

/// With requests left and no `retry-after`, the wait is the default after a
/// status from 200 to 299 and twice the default after any other status
/// (a 4xx such as 403 or 429 included): 500 ms and 1000 ms.
pub proof fn lemma_failed_status_doubles_wait(
    h: RateLimitHeadersView,
    status: u16,
    other: u16,
    now: UtcTime,
)
    requires
        headers_readable(h),
        remaining_spec(h) != Some(0u32),
        h.retry_after is None,
        clock_time(now),
    ensures
        200 <= status <= 299 ==> rate_limit_wait_spec(h, status, now) == Some(500_000_000int),
        !(200 <= status <= 299) ==> rate_limit_wait_spec(h, status, now) == Some(1_000_000_000int),
        !(200 <= status <= 299) && 200 <= other <= 299 ==> rate_limit_wait_spec(h, status, now)->0
            == 2 * rate_limit_wait_spec(h, other, now)->0,
{
}

fn bytes_as_slice(b: &Option<Vec<u8>>) -> (r: Option<&[u8]>)
    ensures
        r matches Some(s) ==> b matches Some(v) && s@ == v@,
        r is None ==> b is None,
{
    match b {
        Some(v) => Some(v.as_slice()),
        None => None,
    }
}

fn wait_until_exec(at: i64, now: &UtcTime) -> (r: i128)
    requires
        timestamp_in_range(at as int),
        clock_time(*now),
    ensures
        r == wait_until(at as int, *now),
        -max_wait_nanos() <= r <= max_wait_nanos(),
{
    at as i128 * 1_000_000_000 - (now.secs as i128 * 1_000_000_000 + now.nanos as i128)
        + 1_000_000_000
}

/// The wait before the next request, seen from `now`; `None` where the
/// headers cannot be read.
pub fn rate_limit_wait(h: &RateLimitHeaders, status: u16, now: &UtcTime) -> (r: Option<WaitTime>)
    requires
        clock_time(*now),
    ensures
        r matches Some(w) ==> rate_limit_wait_spec(h@, status, *now) == Some(w.spec_nanos()),
        r is None ==> rate_limit_wait_spec(h@, status, *now) is None,
{
    let remaining = match bytes_as_slice(&h.remaining) {
        Some(b) => parse_u32(b),
        None => Some(0u32),
    };
    let reset = match bytes_as_slice(&h.reset) {
        Some(b) => parse_i64(b),
        None => Some(now.secs),
    };
    let (remaining, reset) = match (remaining, reset) {
        (Some(r), Some(s)) => (r, s),
        _ => {
            return None;
        },
    };
    if reset < -8_334_601_228_800i64 || reset > 8_210_266_876_799i64 {
        return None;
    }
    let default: i128 = 500_000_000;
    if remaining == 0 {
        let w = wait_until_exec(reset, now);
        let nanos = if w >= default {
            w
        } else {
            default
        };
        return Some(WaitTime { nanos });
    }
    match bytes_as_slice(&h.retry_after) {
        Some(b) => match parse_i64(b) {
            Some(at) => {
                if at < -8_334_601_228_800i64 || at > 8_210_266_876_799i64 {
                    return None;
                }
                let w = wait_until_exec(at, now);
                let nanos = if default >= w {
                    default
                } else {
                    w
                };
                Some(WaitTime { nanos })
            },
            None => None,
        },
        None => {
            if status < 200 || status > 299 {
                Some(WaitTime { nanos: 2 * default })
            } else {
                Some(WaitTime { nanos: default })
            }
        },
    }
}

/// Whether the headers can be read (where they cannot, the crawler stops).
pub fn rate_limit_headers_readable(h: &RateLimitHeaders) -> (r: bool)
    ensures
        r == headers_readable(h@),
{
    let now = UtcTime { secs: 0, nanos: 0 };
    let w = rate_limit_wait(h, 200, &now);
    proof {
        lemma_readable_iff_wait(h@, 200, now);
    }
    w.is_some()
}

/// The time to wait before the next request, from the headers and the
/// status of the last response and the current time.
///
/// The clock is read once, and that reading stands for the current time
/// wherever the wait needs it.
pub fn handle_response_headers(h: &RateLimitHeaders, status: u16) -> (r: WaitTime)
    requires
        headers_readable(h@),
    ensures
        exists|now: UtcTime|
            clock_time(now) && rate_limit_wait_spec(h@, status, now) == Some(r.spec_nanos()),
        r.spec_nanos() >= default_wait(),
{
    let now = utc_now();
    proof {
        lemma_readable_iff_wait(h@, status, now);
    }
    match rate_limit_wait(h, status, &now) {
        Some(w) => {
            proof {
                lemma_wait_at_least_default(h@, status, now);
            }
            w
        },
        None => {
            assert(false);
            WaitTime { nanos: 500_000_000 }
        },
    }
}

} // verus!
