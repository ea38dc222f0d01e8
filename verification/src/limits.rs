//! Bounds on the proxy's traffic-capture settings. A configured value of zero
//! means "use the default"; any other value is clamped into its range.

use vstd::prelude::*;

verus! {

pub const DEFAULT_PROXY_TRAFFIC_MAX_EVENTS: usize = 2_000;
pub const MIN_PROXY_TRAFFIC_MAX_EVENTS: usize = 100;
pub const MAX_PROXY_TRAFFIC_MAX_EVENTS: usize = 100_000;
pub const DEFAULT_PROXY_TRAFFIC_WRITER_QUEUE_SIZE: usize = 10_000;
pub const MIN_PROXY_TRAFFIC_WRITER_QUEUE_SIZE: usize = 100;
pub const MAX_PROXY_TRAFFIC_WRITER_QUEUE_SIZE: usize = 100_000;
pub const DEFAULT_PROXY_TRAFFIC_RETENTION_DAYS: u16 = 7;
pub const MIN_PROXY_TRAFFIC_RETENTION_DAYS: u16 = 1;
pub const MAX_PROXY_TRAFFIC_RETENTION_DAYS: u16 = 90;
pub const DEFAULT_PROXY_TRAFFIC_MAX_STORAGE_MB: usize = 500;
pub const MIN_PROXY_TRAFFIC_MAX_STORAGE_MB: usize = 50;
pub const MAX_PROXY_TRAFFIC_MAX_STORAGE_MB: usize = 10_000;
pub const DEFAULT_PROXY_REQUEST_BODY_PREVIEW_MAX_BYTES: usize = 65_536;
pub const DEFAULT_PROXY_RESPONSE_BODY_PREVIEW_MAX_BYTES: usize = 131_072;
pub const MIN_PROXY_BODY_PREVIEW_MAX_BYTES: usize = 256;
pub const MAX_PROXY_BODY_PREVIEW_MAX_BYTES: usize = 1_048_576;

/// Zero selects `default`; anything else is clamped into `[lo, hi]`.
pub open spec fn sanitized(limit: int, default: int, lo: int, hi: int) -> int {
    if limit == 0 {
        default
    } else if limit < lo {
        lo
    } else if limit > hi {
        hi
    } else {
        limit
    }
}

fn clamp_usize(limit: usize, lo: usize, hi: usize) -> (r: usize)
    requires
        lo <= hi,
    ensures
        limit != 0 ==> r == sanitized(limit as int, 0, lo as int, hi as int),
{
    if limit < lo {
        lo
    } else if limit > hi {
        hi
    } else {
        limit
    }
}

/// How many traffic events are kept in memory.
pub fn sanitize_proxy_traffic_limit(limit: usize) -> (r: usize)
    ensures
        r == sanitized(
            limit as int,
            DEFAULT_PROXY_TRAFFIC_MAX_EVENTS as int,
            MIN_PROXY_TRAFFIC_MAX_EVENTS as int,
            MAX_PROXY_TRAFFIC_MAX_EVENTS as int,
        ),
{
    if limit == 0 {
        return DEFAULT_PROXY_TRAFFIC_MAX_EVENTS;
    }
    clamp_usize(limit, MIN_PROXY_TRAFFIC_MAX_EVENTS, MAX_PROXY_TRAFFIC_MAX_EVENTS)
}

/// How many events may wait for the disk writer.
pub fn sanitize_proxy_writer_queue_size(limit: usize) -> (r: usize)
    ensures
        r == sanitized(
            limit as int,
            DEFAULT_PROXY_TRAFFIC_WRITER_QUEUE_SIZE as int,
            MIN_PROXY_TRAFFIC_WRITER_QUEUE_SIZE as int,
            MAX_PROXY_TRAFFIC_WRITER_QUEUE_SIZE as int,
        ),
{
    if limit == 0 {
        return DEFAULT_PROXY_TRAFFIC_WRITER_QUEUE_SIZE;
    }
    clamp_usize(limit, MIN_PROXY_TRAFFIC_WRITER_QUEUE_SIZE, MAX_PROXY_TRAFFIC_WRITER_QUEUE_SIZE)
}

/// How many days of traffic files are kept.
pub fn sanitize_proxy_retention_days(limit: u16) -> (r: u16)
    ensures
        r == sanitized(
            limit as int,
            DEFAULT_PROXY_TRAFFIC_RETENTION_DAYS as int,
            MIN_PROXY_TRAFFIC_RETENTION_DAYS as int,
            MAX_PROXY_TRAFFIC_RETENTION_DAYS as int,
        ),
{
    if limit == 0 {
        DEFAULT_PROXY_TRAFFIC_RETENTION_DAYS
    } else if limit < MIN_PROXY_TRAFFIC_RETENTION_DAYS {
        MIN_PROXY_TRAFFIC_RETENTION_DAYS
    } else if limit > MAX_PROXY_TRAFFIC_RETENTION_DAYS {
        MAX_PROXY_TRAFFIC_RETENTION_DAYS
    } else {
        limit
    }
}

/// How many megabytes of traffic files are kept.
pub fn sanitize_proxy_max_storage_mb(limit: usize) -> (r: usize)
    ensures
        r == sanitized(
            limit as int,
            DEFAULT_PROXY_TRAFFIC_MAX_STORAGE_MB as int,
            MIN_PROXY_TRAFFIC_MAX_STORAGE_MB as int,
            MAX_PROXY_TRAFFIC_MAX_STORAGE_MB as int,
        ),
{
    if limit == 0 {
        return DEFAULT_PROXY_TRAFFIC_MAX_STORAGE_MB;
    }
    clamp_usize(limit, MIN_PROXY_TRAFFIC_MAX_STORAGE_MB, MAX_PROXY_TRAFFIC_MAX_STORAGE_MB)
}

/// How many bytes of a body are previewed; zero selects `default_limit`.
pub fn sanitize_proxy_body_preview_limit(limit: usize, default_limit: usize) -> (r: usize)
    ensures
        r == sanitized(
            limit as int,
            default_limit as int,
            MIN_PROXY_BODY_PREVIEW_MAX_BYTES as int,
            MAX_PROXY_BODY_PREVIEW_MAX_BYTES as int,
        ),
{
    if limit == 0 {
        return default_limit;
    }
    clamp_usize(limit, MIN_PROXY_BODY_PREVIEW_MAX_BYTES, MAX_PROXY_BODY_PREVIEW_MAX_BYTES)
}

/// A sanitized limit lies in its range when the default does, and sanitizing
/// it again leaves it unchanged.
pub proof fn law_sanitized_in_range_and_stable(limit: int, default: int, lo: int, hi: int)
    requires
        0 < lo <= hi,
        lo <= default <= hi,
    ensures
        lo <= sanitized(limit, default, lo, hi) <= hi,
        sanitized(sanitized(limit, default, lo, hi), default, lo, hi) == sanitized(
            limit,
            default,
            lo,
            hi,
        ),
{
}

/// Every sanitizer of the proxy settings yields a value inside its documented
/// range, and applying it twice gives what applying it once gave.
pub proof fn law_proxy_limits_in_range(events: usize, queue: usize, days: u16, mb: usize)
    ensures
        MIN_PROXY_TRAFFIC_MAX_EVENTS <= sanitized(
            events as int,
            DEFAULT_PROXY_TRAFFIC_MAX_EVENTS as int,
            MIN_PROXY_TRAFFIC_MAX_EVENTS as int,
            MAX_PROXY_TRAFFIC_MAX_EVENTS as int,
        ) <= MAX_PROXY_TRAFFIC_MAX_EVENTS,
        MIN_PROXY_TRAFFIC_WRITER_QUEUE_SIZE <= sanitized(
            queue as int,
            DEFAULT_PROXY_TRAFFIC_WRITER_QUEUE_SIZE as int,
            MIN_PROXY_TRAFFIC_WRITER_QUEUE_SIZE as int,
            MAX_PROXY_TRAFFIC_WRITER_QUEUE_SIZE as int,
        ) <= MAX_PROXY_TRAFFIC_WRITER_QUEUE_SIZE,
        MIN_PROXY_TRAFFIC_RETENTION_DAYS <= sanitized(
            days as int,
            DEFAULT_PROXY_TRAFFIC_RETENTION_DAYS as int,
            MIN_PROXY_TRAFFIC_RETENTION_DAYS as int,
            MAX_PROXY_TRAFFIC_RETENTION_DAYS as int,
        ) <= MAX_PROXY_TRAFFIC_RETENTION_DAYS,
        MIN_PROXY_TRAFFIC_MAX_STORAGE_MB <= sanitized(
            mb as int,
            DEFAULT_PROXY_TRAFFIC_MAX_STORAGE_MB as int,
            MIN_PROXY_TRAFFIC_MAX_STORAGE_MB as int,
            MAX_PROXY_TRAFFIC_MAX_STORAGE_MB as int,
        ) <= MAX_PROXY_TRAFFIC_MAX_STORAGE_MB,
{
}

} // verus!
