//! Points in time, through chrono.

use vstd::prelude::*;

use crate::model::Timestamp;

verus! {

/// The point in time `nanos` nanoseconds after the Unix epoch: the seconds
/// are the quotient rounded towards negative infinity, the nanoseconds the
/// non-negative remainder.
pub open spec fn timestamp_of_nanos(nanos: int) -> Timestamp {
    Timestamp { secs: (nanos / 1_000_000_000) as i64, nanos: (nanos % 1_000_000_000) as u32 }
}

/// Every `i64` count of nanoseconds is a well-formed point in time, and
/// converting it back gives the same count.
pub proof fn lemma_timestamp_of_nanos_roundtrip(nanos: i64)
    ensures
        timestamp_of_nanos(nanos as int).well_formed(),
        timestamp_of_nanos(nanos as int).total_nanos() == nanos as int,
{
    let n = nanos as int;
    let q = n / 1_000_000_000;
    let r = n % 1_000_000_000;
    assert(q * 1_000_000_000 + r == n && 0 <= r < 1_000_000_000) by (nonlinear_arith)
        requires
            q == n / 1_000_000_000,
            r == n % 1_000_000_000,
    ;
    assert(i64::MIN <= q <= i64::MAX) by (nonlinear_arith)
        requires
            q * 1_000_000_000 + r == n,
            0 <= r < 1_000_000_000,
            i64::MIN <= n <= i64::MAX,
    ;
}

/// `DateTime::<Utc>::from_timestamp_nanos` of chrono, read back through
/// `timestamp` and `timestamp_subsec_nanos`. Its source splits the count with
/// `div_euclid` and `rem_euclid` by 10^9; the contract claims that split.
#[verifier::external_body]
pub(crate) fn timestamp_from_nanos(nanos: i64) -> (t: Timestamp)
    ensures
        t == timestamp_of_nanos(nanos as int),
{
    let dt = chrono::DateTime::<chrono::Utc>::from_timestamp_nanos(nanos);
    Timestamp { secs: dt.timestamp(), nanos: dt.timestamp_subsec_nanos() }
}

/// The current time: `DateTime::<Utc>::from(SystemTime::now())` of chrono
/// (its `From<SystemTime>` impl), read back through `timestamp` and
/// `timestamp_subsec_nanos`. Its source splits the clock's distance from the
/// Unix epoch into seconds and nanoseconds below one second, also for a clock
/// set before 1970 (a negative time then), so the contract claims only that
/// the nanoseconds lie below one second; which time comes back is not stated.
/// The `unwrap` in that impl fires only for a clock outside the range of
/// chrono's dates (about 262,000 years either side of 1970).
#[verifier::external_body]
pub(crate) fn now() -> (t: Timestamp)
    ensures
        t.well_formed(),
{
    let dt = chrono::DateTime::<chrono::Utc>::from(std::time::SystemTime::now());
    Timestamp { secs: dt.timestamp(), nanos: dt.timestamp_subsec_nanos() }
}

} // verus!
