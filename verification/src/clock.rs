//! What the library takes from the `chrono` crate: the reading of a time of day.
//!
//! Nothing in this file is proved. The item states what `chrono` documents
//! of the functions it names.

use chrono::Timelike;
use vstd::prelude::*;

verus! {

/// The seconds of a day.
pub const SECONDS_OF_DAY: u32 = 86_400;

/// The time of day that `chrono::NaiveTime::parse_from_str` reads from
/// `text` in the format `format`, in whole seconds from midnight as
/// `chrono::Timelike::num_seconds_from_midnight` counts them. There is none
/// where `text` is not a time of day in that format.
pub uninterp spec fn time_of_day(text: Seq<char>, format: Seq<char>) -> Option<u32>;

/// Calls `chrono::NaiveTime::parse_from_str` and, on the time it gives,
/// `chrono::Timelike::num_seconds_from_midnight`, which lies within a day.
#[verifier::external_body]
pub(crate) fn read_time_of_day(text: &str, format: &str) -> (second: Option<u32>)
    ensures
        second == time_of_day(text@, format@),
        second matches Some(s) ==> s < SECONDS_OF_DAY,
{
    match chrono::NaiveTime::parse_from_str(text, format) {
        Ok(time) => Some(time.num_seconds_from_midnight()),
        Err(_) => None,
    }
}

} // verus!
