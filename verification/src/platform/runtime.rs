//! The clock and the random source.
use vstd::prelude::*;

use std::time::{Duration, SystemTime, UNIX_EPOCH};

use rand::distributions::Alphanumeric;
use rand::Rng;

verus! {

/// Whether a character is an ASCII letter or digit.
pub open spec fn is_alphanumeric_char(c: char) -> bool {
    ('a' <= c && c <= 'z') || ('A' <= c && c <= 'Z') || ('0' <= c && c <= '9')
}

/// Declares `std::time::SystemTime`, a reading of the system clock, as an
/// opaque type.
#[verifier::external_type_specification]
#[verifier::external_body]
pub struct ExSystemTime(SystemTime);

/// Calls `std::time::SystemTime::now`. Nothing is claimed of the reading.
#[verifier::external_body]
fn system_now() -> (r: SystemTime) {
    SystemTime::now()
}

/// Calls `std::time::SystemTime::duration_since` with the Unix epoch: the time
/// from the epoch to `t`, or `None` where `t` lies before the epoch. Nothing
/// is claimed of which.
#[verifier::external_body]
fn since_epoch(t: &SystemTime) -> (r: Option<Duration>) {
    match t.duration_since(UNIX_EPOCH) {
        Ok(d) => Some(d),
        Err(_) => None,
    }
}

/// Calls `std::time::Duration::as_secs`: the whole seconds of `d`.
#[verifier::external_body]
fn duration_secs(d: &Duration) -> (r: u64) {
    d.as_secs()
}

/// Calls `std::time::Duration::subsec_nanos`: the part of `d` below a whole
/// second, in nanoseconds, which std documents to be below one billion.
#[verifier::external_body]
fn duration_subsec_nanos(d: &Duration) -> (r: u32)
    ensures
        r < 1_000_000_000,
{
    d.subsec_nanos()
}

/// Calls `std::time::Duration::as_millis`: the whole milliseconds of `d`.
#[verifier::external_body]
fn duration_millis(d: &Duration) -> (r: u128) {
    d.as_millis()
}

/// Seconds and nanoseconds since the Unix epoch by the system clock; zero
/// when the clock reads before the epoch. Nothing is claimed of the time
/// itself, only that the nanoseconds are below a second.
pub(crate) fn now_since_epoch() -> (r: (u64, u32))
    ensures
        r.1 < 1_000_000_000,
{
    match since_epoch(&system_now()) {
        Some(d) => (duration_secs(&d), duration_subsec_nanos(&d)),
        None => (0, 0),
    }
}

/// Milliseconds since the Unix epoch by the system clock (the low 64 bits);
/// zero when the clock reads before the epoch. Nothing is claimed of the
/// value: it is the time.
pub(crate) fn now_millis() -> (r: u64) {
    match since_epoch(&system_now()) {
        Some(d) => {
            let ms = duration_millis(&d);
            #[verifier::truncate]
            (ms as u64)
        },
        None => 0,
    }
}

/// `len` characters drawn by `rand::thread_rng()` from the
/// `rand::distributions::Alphanumeric` distribution. Claims, as the rand crate
/// documents for that distribution, that the text has `len` characters, each
/// an ASCII letter or digit; which ones is chance.
#[verifier::external_body]
pub(crate) fn random_alphanumeric(len: usize) -> (r: String)
    ensures
        r@.len() == len,
        forall|i: int| 0 <= i < len ==> is_alphanumeric_char(#[trigger] r@[i]),
{
    rand::thread_rng().sample_iter(&Alphanumeric).map(char::from).take(len).collect()
}

} // verus!
