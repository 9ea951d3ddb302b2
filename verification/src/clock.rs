//! Instants and the wall clock.
//!
//! An instant is a count of milliseconds since the Unix epoch, held in a
//! `u64`. The last instant that a `u64` can hold stands for every later one.
//! The journal writes an instant as an `i64` with the same 64 bits.

use core::time::Duration;
use vstd::prelude::*;

verus! {

/// How long ago the Unix epoch was by the system clock
/// (`SystemTime::elapsed` on `UNIX_EPOCH`); none where the clock stands
/// before the epoch. Nothing is promised of the reading: the clock decides.
#[verifier::external_body]
fn since_epoch() -> (r: Option<Duration>) {
    match std::time::UNIX_EPOCH.elapsed() {
        Ok(d) => Some(d),
        Err(_) => None,
    }
}

/// `Duration::as_millis`: the whole milliseconds in a duration. Nothing is
/// said of the number here, a `Duration` being opaque.
pub assume_specification[ Duration::as_millis ](d: &Duration) -> (r: u128)
;

/// Milliseconds in one second.
pub const MILLIS_PER_SEC: u64 = 1000;

/// Two to the power 63: the first `u64` that no `i64` equals.
pub const SIGN_BIT: u64 = 0x8000_0000_0000_0000;

/// The instant `secs` seconds after `now`.
pub open spec fn deadline(now: u64, secs: u64) -> u64 {
    if now + secs * 1000 <= u64::MAX {
        (now + secs * 1000) as u64
    } else {
        u64::MAX
    }
}

/// The whole seconds from `now` to `until`; zero if `until` is not later.
pub open spec fn seconds_left(until: u64, now: u64) -> int {
    if until > now {
        (until - now) / 1000
    } else {
        0
    }
}

/// The instant `t` as the journal writes it: the `i64` with the same bits.
pub open spec fn stamp_of(t: u64) -> i64 {
    if t < 0x8000_0000_0000_0000 {
        t as i64
    } else {
        (t - 0x1_0000_0000_0000_0000) as i64
    }
}

/// The instant that the journal's `ms` stands for: the `u64` with the same
/// bits.
pub open spec fn instant_of(ms: i64) -> u64 {
    if ms >= 0 {
        ms as u64
    } else {
        (ms + 0x1_0000_0000_0000_0000) as u64
    }
}

/// An instant written to the journal and read back is the same instant.
pub proof fn lemma_stamp_round_trip(t: u64)
    ensures
        instant_of(stamp_of(t)) == t,
{
}

/// A journal stamp read and written again is the same stamp.
pub proof fn lemma_instant_round_trip(ms: i64)
    ensures
        stamp_of(instant_of(ms)) == ms,
{
}

/// The instant that the system clock shows: whatever the clock reads, made
/// an instant by [`instant_from_elapsed`]. Nothing is promised of the reading.
pub fn now_millis() -> (now: u64) {
    let elapsed_ms: Option<u128> = match since_epoch() {
        Some(d) => Some(d.as_millis()),
        None => None,
    };
    instant_from_elapsed(elapsed_ms)
}

/// The instant of a clock that shows `elapsed_ms` milliseconds since the
/// epoch, or none where it stands before the epoch: the epoch itself for
/// none, and the last instant for every reading beyond it.
pub open spec fn clock_instant(elapsed_ms: Option<u128>) -> u64 {
    match elapsed_ms {
        Some(ms) => if ms <= u64::MAX {
            ms as u64
        } else {
            u64::MAX
        },
        None => 0,
    }
}

/// Computes [`clock_instant`].
pub fn instant_from_elapsed(elapsed_ms: Option<u128>) -> (now: u64)
    ensures
        now == clock_instant(elapsed_ms),
{
    match elapsed_ms {
        Some(ms) => if ms > 0xffff_ffff_ffff_ffffu128 {
            u64::MAX
        } else {
            ms as u64
        },
        None => 0,
    }
}

/// Computes [`deadline`].
pub fn deadline_after(now: u64, secs: u64) -> (r: u64)
    ensures
        r == deadline(now, secs),
{
    match secs.checked_mul(MILLIS_PER_SEC) {
        Some(ms) => match now.checked_add(ms) {
            Some(t) => t,
            None => u64::MAX,
        },
        None => u64::MAX,
    }
}

/// Computes [`seconds_left`].
pub fn seconds_until(until: u64, now: u64) -> (r: i64)
    ensures
        r == seconds_left(until, now),
{
    if until > now {
        ((until - now) / MILLIS_PER_SEC) as i64
    } else {
        0
    }
}

/// Computes [`stamp_of`].
pub fn to_stamp(t: u64) -> (ms: i64)
    ensures
        ms == stamp_of(t),
{
    if t < SIGN_BIT {
        t as i64
    } else {
        ((t - SIGN_BIT) as i64) + i64::MIN
    }
}

/// Computes [`instant_of`].
pub fn from_stamp(ms: i64) -> (t: u64)
    ensures
        t == instant_of(ms),
{
    if ms >= 0 {
        ms as u64
    } else {
        ((ms - i64::MIN) as u64) + SIGN_BIT
    }
}

} // verus!
