//! File names from the time of the capture, written by `chrono`.

use std::fmt::Write;
use vstd::prelude::*;

verus! {

/// The text `chrono` writes for the strftime `pattern` at the instant `secs`
/// seconds and `nanos` nanoseconds after the Unix epoch, seen from a zone
/// `offset` seconds east of UTC.
pub uninterp spec fn time_text(pattern: Seq<char>, secs: i64, nanos: u32, offset: i32) -> Seq<char>;

/// Formats an instant through `chrono`: `FixedOffset::east_opt`,
/// `DateTime::from_timestamp`, then `DateTime::format` written into a string.
/// What comes back is that text; `None` when `chrono` refuses the offset or
/// the instant, or cannot write the pattern. Which patterns it can write is
/// left unsaid.
#[verifier::external_body]
pub fn format_time(pattern: &str, secs: i64, nanos: u32, offset: i32) -> (r: Option<String>)
    ensures
        r is Some ==> r->Some_0@ == time_text(pattern@, secs, nanos, offset),
{
    let zone = chrono::FixedOffset::east_opt(offset)?;
    let when = chrono::DateTime::from_timestamp(secs, nanos)?.with_timezone(&zone);
    let mut s = String::new();
    match write!(s, "{}", when.format(pattern)) {
        Ok(()) => Some(s),
        Err(_) => None,
    }
}

} // verus!
