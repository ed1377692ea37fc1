//! Time as the statistics see it: instants are nanoseconds since the Unix
//! epoch, and a bucket starts at a whole multiple of the period.

use chrono::{DateTime, DurationRound, TimeDelta};
use vstd::prelude::*;

verus! {

/// The latest multiple of `period` that is not after `stamp`.
pub open spec fn bucket_floor(stamp: int, period: int) -> int {
    stamp - stamp % period
}

/// The RFC 3339 text of the instant `stamp` nanoseconds after the epoch, in
/// UTC.
pub uninterp spec fn rfc3339_text(stamp: i64) -> Seq<char>;

/// Rounds an instant down to a multiple of `period`.
///
/// Calls `DurationRound::duration_trunc` of `chrono` on the `DateTime` made
/// by `DateTime::from_timestamp_nanos`, with the period made by
/// `TimeDelta::nanoseconds`, and reads the result back with
/// `DateTime::timestamp_nanos_opt`. The contract claims that the result is
/// the floor of the instant where the period is positive and the floor is
/// still a 64-bit count of nanoseconds, and that there is none otherwise:
/// `duration_trunc` refuses a span that is not positive, and
/// `timestamp_nanos_opt` yields nothing for an instant before the earliest
/// such count.
#[verifier::external_body]
pub(crate) fn trunc_nanos(stamp: i64, period: i64) -> (start: Option<i64>)
    ensures
        period > 0 && bucket_floor(stamp as int, period as int) >= i64::MIN ==> start == Some(
            bucket_floor(stamp as int, period as int) as i64,
        ),
        !(period > 0 && bucket_floor(stamp as int, period as int) >= i64::MIN) ==> start is None,
{
    match DateTime::from_timestamp_nanos(stamp).duration_trunc(TimeDelta::nanoseconds(period)) {
        Ok(floor) => floor.timestamp_nanos_opt(),
        Err(_) => None,
    }
}

/// Writes an instant as RFC 3339 text.
///
/// Calls `DateTime::to_rfc3339` of `chrono` on the `DateTime` made by
/// `DateTime::from_timestamp_nanos`. The contract only gives the result its
/// name, `rfc3339_text`.
#[verifier::external_body]
pub(crate) fn rfc3339(stamp: i64) -> (text: String)
    ensures
        text@ == rfc3339_text(stamp),
{
    DateTime::from_timestamp_nanos(stamp).to_rfc3339()
}

/// The floor of an instant is a multiple of the period, is not after the
/// instant, and is less than one period before it.
pub proof fn lemma_bucket_floor(stamp: int, period: int)
    requires
        period > 0,
    ensures
        bucket_floor(stamp, period) % period == 0,
        bucket_floor(stamp, period) <= stamp < bucket_floor(stamp, period) + period,
{
    vstd::arithmetic::div_mod::lemma_fundamental_div_mod(stamp, period);
    vstd::arithmetic::div_mod::lemma_mod_multiples_basic(stamp / period, period);
    assert(bucket_floor(stamp, period) == period * (stamp / period));
    assert(period * (stamp / period) == (stamp / period) * period) by (nonlinear_arith);
    vstd::arithmetic::div_mod::lemma_mod_bound(stamp, period);
}

/// Bucket starts never go back while the clock does not: an instant that is
/// not before an aligned bucket start has a floor that is not before it
/// either, and an instant inside the bucket has that very start as floor.
pub proof fn lemma_bucket_floor_monotonic(start: int, stamp: int, period: int)
    requires
        period > 0,
        start % period == 0,
        start <= stamp,
    ensures
        start <= bucket_floor(stamp, period),
        stamp < start + period ==> bucket_floor(stamp, period) == start,
{
    lemma_bucket_floor(stamp, period);
    let floor = bucket_floor(stamp, period);
    vstd::arithmetic::div_mod::lemma_fundamental_div_mod(start, period);
    vstd::arithmetic::div_mod::lemma_fundamental_div_mod(floor, period);
    let a = start / period;
    let b = floor / period;
    assert(start == period * a);
    assert(floor == period * b);
    if b < a {
        assert(period * b + period <= period * a) by (nonlinear_arith)
            requires
                b < a,
                period > 0,
        ;
        assert(false);
    }
    assert(period * a <= period * b) by (nonlinear_arith)
        requires
            a <= b,
            period > 0,
    ;
    if stamp < start + period && a < b {
        assert(period * a + period <= period * b) by (nonlinear_arith)
            requires
                a < b,
                period > 0,
        ;
        assert(false);
    }
}

/// Finds the start of the bucket that holds `now` and the time that is
/// left until the bucket ends.
///
/// There is no bucket where the period is not positive, or where the start
/// would lie before the earliest instant that 64 bits of nanoseconds reach.
pub fn locate(now: i64, period: i64) -> (found: Option<(i64, u64)>)
    ensures
        found is Some <==> period > 0 && bucket_floor(now as int, period as int) >= i64::MIN,
        found matches Some((start, left)) ==> {
            &&& start == bucket_floor(now as int, period as int)
            &&& left == period - (now - start)
            &&& 0 < left <= period
        },
{
    match trunc_nanos(now, period) {
        Some(start) => {
            proof {
                lemma_bucket_floor(now as int, period as int);
            }
            let elapsed: i64 = now - start;
            let left: i64 = period - elapsed;
            Some((start, left as u64))
        },
        None => None,
    }
}

} // verus!
