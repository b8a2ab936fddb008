//! Identifiers and the clock.

use std::time::{Duration, SystemTime, SystemTimeError};
use vstd::prelude::*;

verus! {

/// Whether `c` is a small hexadecimal digit.
pub open spec fn is_hex(c: char) -> bool {
    ('0' <= c && c <= '9') || ('a' <= c && c <= 'f')
}

/// Whether `s` is the text of a random UUID: five groups of small hexadecimal digits with hyphens
/// between them, of version four and of the usual variant.
pub open spec fn is_uuid(s: Seq<char>) -> bool {
    &&& s.len() == 36
    &&& forall|i: int|
        0 <= i < 36 ==> if i == 8 || i == 13 || i == 18 || i == 23 {
            #[trigger] s[i] == '-'
        } else {
            is_hex(s[i])
        }
    &&& s[14] == '4'
    &&& s[19] == '8' || s[19] == '9' || s[19] == 'a' || s[19] == 'b'
}

/// `uuid::Uuid::new_v4` and its `Display`: a random UUID, written as five groups of small
/// hexadecimal digits. Nothing is said of which one it is: two calls give different ones but for
/// chance.
#[verifier::external_body]
fn random_uuid() -> (r: String)
    ensures
        is_uuid(r@),
{
    uuid::Uuid::new_v4().to_string()
}

/// A fresh identifier.
pub fn new_id() -> (r: String)
    ensures
        is_uuid(r@),
{
    random_uuid()
}

/// `n` fresh identifiers.
pub fn new_ids(n: usize) -> (r: Vec<String>)
    ensures
        r@.len() == n,
        forall|i: int| 0 <= i < n ==> is_uuid((#[trigger] r@[i])@),
{
    let mut out: Vec<String> = Vec::new();
    while out.len() < n
        invariant
            out@.len() <= n,
            forall|i: int| 0 <= i < out@.len() ==> is_uuid((#[trigger] out@[i])@),
        decreases n - out@.len(),
    {
        out.push(new_id());
    }
    out
}

#[verifier::external_type_specification]
#[verifier::external_body]
pub struct ExSystemTime(SystemTime);

#[verifier::external_type_specification]
#[verifier::external_body]
pub struct ExSystemTimeError(SystemTimeError);

/// `SystemTime::now`: the time of the system clock. Nothing is said of it.
#[verifier::external_body]
fn system_now() -> (r: SystemTime) {
    SystemTime::now()
}

/// The time that has passed since the Unix epoch, where `t` is not before it.
pub uninterp spec fn time_since_epoch(t: SystemTime) -> Option<Duration>;

/// `SystemTime::duration_since`, from the Unix epoch on: the time that has passed, or an error for a
/// time before it.
#[verifier::external_body]
fn since_epoch(t: SystemTime) -> (r: Result<Duration, SystemTimeError>)
    ensures
        match r {
            Ok(d) => time_since_epoch(t) == Some(d),
            Err(_) => time_since_epoch(t) is None,
        },
{
    t.duration_since(SystemTime::UNIX_EPOCH)
}

/// The whole milliseconds of a duration.
pub uninterp spec fn millis_in(d: Duration) -> u128;

/// `Duration::as_millis`: the whole milliseconds of a duration.
#[verifier::external_body]
fn whole_millis(d: Duration) -> (r: u128)
    ensures
        r == millis_in(d),
{
    d.as_millis()
}

/// The time in milliseconds, given those since the Unix epoch; zero for a clock before it.
pub open spec fn ms_of(since: Option<u128>) -> i64 {
    match since {
        Some(n) => n as i64,
        None => 0,
    }
}

/// The time in milliseconds, given those since the Unix epoch; zero for a clock before it.
pub fn clock_ms(since: Option<u128>) -> (r: i64)
    ensures
        r == ms_of(since),
        since matches Some(n) ==> n <= i64::MAX ==> r == n,
{
    match since {
        Some(n) => n as i64,
        None => 0,
    }
}

/// What is read off a clock that stands at `t`: the milliseconds since the Unix epoch.
pub open spec fn reading(t: SystemTime) -> i64 {
    ms_of(
        match time_since_epoch(t) {
            Some(d) => Some(millis_in(d)),
            None => None,
        },
    )
}

/// Whether `ms` is what is read off a clock at some time.
pub open spec fn is_reading(ms: i64) -> bool {
    exists|t: SystemTime| ms == #[trigger] reading(t)
}

/// The milliseconds since the Unix epoch; zero for a clock that stands before it.
pub fn now_ms() -> (r: i64)
    ensures
        is_reading(r),
{
    let t = system_now();
    let ghost clock = t;
    let since: Option<u128> = match since_epoch(t) {
        Ok(d) => Some(whole_millis(d)),
        Err(_) => None,
    };
    let r: i64 = clock_ms(since);
    assert(r == reading(clock));
    r
}

} // verus!
