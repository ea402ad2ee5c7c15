//! Time offsets, measured in whole nanoseconds.
//!
//! `std::time::Duration` is opaque to the verifier. This module names the two
//! numbers a duration is made of and states what the three `Duration`
//! functions used by the engine do to them; everything else is arithmetic
//! on nanosecond counts, which is verified.

use std::time::Duration;
use vstd::prelude::*;

verus! {

/// Nanoseconds in one second.
pub const NANOS_PER_SEC: u32 = 1_000_000_000;

/// The whole seconds of a duration: the number that `Duration::as_secs` returns.
pub uninterp spec fn duration_secs(d: Duration) -> u64;

/// The fractional part of a duration in nanoseconds: the number that
/// `Duration::subsec_nanos` returns.
pub uninterp spec fn duration_subsec_nanos(d: Duration) -> u32;

/// A duration as a count of nanoseconds.
pub open spec fn nanos_of(d: Duration) -> nat {
    (duration_secs(d) as nat) * (NANOS_PER_SEC as nat) + (duration_subsec_nanos(d) as nat)
}

/// `Duration::as_secs` returns the number of whole seconds of the duration.
/// Not proved: taken from the standard library's documentation.
pub assume_specification[ Duration::as_secs ](d: &Duration) -> (secs: u64)
    ensures
        secs == duration_secs(*d),
;

/// `Duration::subsec_nanos` returns the fractional part of the duration in
/// nanoseconds, which is always less than one second. Not proved: taken from
/// the standard library's documentation.
pub assume_specification[ Duration::subsec_nanos ](d: &Duration) -> (nanos: u32)
    ensures
        nanos == duration_subsec_nanos(*d),
        nanos < NANOS_PER_SEC,
;

/// `Duration::new` builds a duration from seconds and nanoseconds, carrying
/// whole seconds in `nanos` over into the seconds. It panics when that carry
/// overflows the seconds, which `requires` rules out. Not proved: taken from
/// the standard library's documentation.
pub assume_specification[ Duration::new ](secs: u64, nanos: u32) -> (d: Duration)
    requires
        secs + nanos / NANOS_PER_SEC <= u64::MAX,
    ensures
        duration_secs(d) == secs + nanos / NANOS_PER_SEC,
        duration_subsec_nanos(d) == nanos % NANOS_PER_SEC,
;

/// The largest nanosecond count that a duration can hold.
pub open spec fn max_nanos() -> nat {
    (u64::MAX as nat) * (NANOS_PER_SEC as nat) + (NANOS_PER_SEC as nat - 1) as nat
}

/// A nanosecond count splits into its whole seconds and the nanoseconds left
/// over in exactly one way.
pub proof fn lemma_nanos_split(secs: nat, nanos: nat)
    requires
        nanos < NANOS_PER_SEC,
    ensures
        (secs * (NANOS_PER_SEC as nat) + nanos) / (NANOS_PER_SEC as nat) == secs,
        (secs * (NANOS_PER_SEC as nat) + nanos) % (NANOS_PER_SEC as nat) == nanos,
{
    assert((secs * 1_000_000_000 + nanos) / 1_000_000_000 == secs && (secs * 1_000_000_000
        + nanos) % 1_000_000_000 == nanos) by (nonlinear_arith)
        requires
            nanos < 1_000_000_000,
    ;
}

/// Reads a duration as a count of nanoseconds.
pub fn total_nanos(d: Duration) -> (n: u128)
    ensures
        n == nanos_of(d),
        n <= max_nanos(),
        n / (NANOS_PER_SEC as u128) == duration_secs(d),
        n % (NANOS_PER_SEC as u128) == duration_subsec_nanos(d),
{
    let secs: u64 = d.as_secs();
    let nanos: u32 = d.subsec_nanos();
    proof {
        lemma_nanos_split(secs as nat, nanos as nat);
    }
    (secs as u128) * 1_000_000_000 + (nanos as u128)
}

/// Builds the duration that lasts `n` nanoseconds.
pub fn duration_of_nanos(n: u128) -> (d: Duration)
    requires
        n <= max_nanos(),
    ensures
        nanos_of(d) == n,
{
    assert(NANOS_PER_SEC == 1_000_000_000);
    let secs: u64 = (n / 1_000_000_000) as u64;
    let nanos: u32 = (n % 1_000_000_000) as u32;
    Duration::new(secs, nanos)
}

/// The time that has passed at `now` since `start`.
pub fn elapsed_since(now: Duration, start: Duration) -> (offset: Duration)
    requires
        nanos_of(start) <= nanos_of(now),
    ensures
        nanos_of(offset) == nanos_of(now) - nanos_of(start),
{
    let n: u128 = total_nanos(now) - total_nanos(start);
    duration_of_nanos(n)
}

/// Whether an offset counted from `start` has been reached at `now`.
pub open spec fn reached(offset: nat, start: Duration, now: Duration) -> bool {
    nanos_of(start) + offset <= nanos_of(now)
}

} // verus!
