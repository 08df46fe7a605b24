//! Capture times as calendar text.

use chrono::DateTime;
use vstd::prelude::*;

verus! {

/// The first time that the calendar can hold, in milliseconds since the
/// epoch: the start of the year -262143.
pub const FIRST_MILLIS: i64 = -8_334_601_228_800_000;

/// The last time that the calendar can hold, in milliseconds since the
/// epoch: the last millisecond of the year 262142.
pub const LAST_MILLIS: i64 = 8_210_266_876_799_999;

/// Whether `millis` milliseconds since the epoch is a time that the calendar
/// can hold.
pub open spec fn representable(millis: i64) -> bool {
    FIRST_MILLIS <= millis <= LAST_MILLIS
}

/// The UTC date and time of a representable `millis`, written as
/// `<year><month><day>T<hour><minute><second>`.
pub uninterp spec fn compact_utc_text(millis: i64) -> Seq<char>;

/// `chrono::DateTime::from_timestamp_millis` returns a time exactly for the
/// numbers from `FIRST_MILLIS` to `LAST_MILLIS`: its dates run from the first
/// day of the year -262143 to the last day of the year 262142. Not proved.
#[verifier::external_body]
pub(crate) fn is_representable(millis: i64) -> (r: bool)
    ensures
        r == representable(millis),
{
    DateTime::from_timestamp_millis(millis).is_some()
}

/// `chrono::DateTime::format` with the pattern `%Y%m%dT%H%M%S`, on the UTC
/// time that `millis` denotes, gives `compact_utc_text`. Not proved.
#[verifier::external_body]
pub(crate) fn compact_utc(millis: i64) -> (r: String)
    requires
        representable(millis),
    ensures
        r@ == compact_utc_text(millis),
{
    match DateTime::from_timestamp_millis(millis) {
        Some(time) => time.format("%Y%m%dT%H%M%S").to_string(),
        None => String::new(),
    }
}

/// The UTC date and time of `millis`, written as
/// `<year><month><day>T<hour><minute><second>`; `None` where the calendar
/// cannot hold the time.
pub fn format_timestamp(millis: i64) -> (r: Option<String>)
    ensures
        r.deep_view() == if representable(millis) {
            Some(compact_utc_text(millis))
        } else {
            None
        },
{
    if is_representable(millis) {
        Some(compact_utc(millis))
    } else {
        None
    }
}

} // verus!
