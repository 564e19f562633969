//! The monotonic clock, behind trusted wrappers: what it returns depends on
//! when it is asked, so nothing is promised of the values.

use std::time::{Duration, Instant};
use vstd::prelude::*;

verus! {

#[verifier::external_type_specification]
#[verifier::external_body]
pub struct ExInstant(Instant);

/// `std::time::Instant::now`: the current instant. Nothing is stated of it.
#[verifier::external_body]
pub(crate) fn now() -> (t: Instant) {
    Instant::now()
}

/// `std::time::Instant::elapsed`: time since `t`. Nothing is stated of it.
#[verifier::external_body]
pub(crate) fn elapsed(t: &Instant) -> (d: Duration) {
    t.elapsed()
}

/// `std::time::Duration::as_millis`: whole milliseconds in `d`. Nothing is
/// stated of the value, since `d` itself is opaque here.
#[verifier::external_body]
pub(crate) fn as_millis(d: &Duration) -> (ms: u128) {
    d.as_millis()
}

/// `std::time::Duration::as_nanos`: whole nanoseconds in `d`, which is
/// exact for a `Duration`. Nothing is stated of the value, since `d` itself
/// is opaque here.
#[verifier::external_body]
pub(crate) fn as_nanos(d: &Duration) -> (ns: u128) {
    d.as_nanos()
}

/// Has more than `secs` seconds passed since `t`? This reads the clock, so
/// nothing is stated of the answer.
pub(crate) fn older_than_secs(t: &Instant, secs: u64) -> (b: bool) {
    let d = elapsed(t);
    let ns = as_nanos(&d);
    exceeds_secs(ns, secs)
}

/// Is a span of `ns` nanoseconds longer than `secs` seconds?
pub(crate) fn exceeds_secs(ns: u128, secs: u64) -> (b: bool)
    ensures
        b == (ns > secs * 1_000_000_000),
{
    ns > (secs as u128) * 1_000_000_000
}

} // verus!
