//! The wall clock, read through the `chrono` crate.
//!
//! Which time the clock shows is not for this library to say. What it can
//! say is the form in which `chrono` writes a time in UTC, which is the
//! same at every time.

use crate::text::all_digits;
use chrono::Utc;
use vstd::prelude::*;

verus! {

/// What stands between the date and the time of day.
pub const DATE_END: char = 'T';

/// The offset that ends a time written in UTC.
pub const UTC_OFFSET: &'static str = "+00:00";

/// Whether `text` is two decimal digits.
pub open spec fn two_digits(text: Seq<char>) -> bool {
    text.len() == 2 && all_digits(text)
}

/// Whether `text` is a date: a year of four or more characters, a month
/// and a day of two digits each, with dashes between.
pub open spec fn is_date(text: Seq<char>) -> bool {
    let n = text.len() as int;
    &&& n >= 10
    &&& text[n - 6] == '-'
    &&& two_digits(text.subrange(n - 5, n - 3))
    &&& text[n - 3] == '-'
    &&& two_digits(text.subrange(n - 2, n))
}

/// Whether `text` is a time of day to the second: hour, minute and second
/// of two digits each, with colons between.
pub open spec fn is_time_of_day(text: Seq<char>) -> bool {
    &&& text.len() == 8
    &&& two_digits(text.subrange(0, 2))
    &&& text[2] == ':'
    &&& two_digits(text.subrange(3, 5))
    &&& text[5] == ':'
    &&& two_digits(text.subrange(6, 8))
}

/// Whether `text` is the fraction of a second: nothing, or a point and
/// three, six or nine digits.
pub open spec fn is_fraction(text: Seq<char>) -> bool {
    text.len() == 0 || {
        &&& text.len() == 4 || text.len() == 7 || text.len() == 10
        &&& text[0] == '.'
        &&& all_digits(text.skip(1))
    }
}

/// Whether `text` is a time in UTC in the form of RFC 3339, as
/// `chrono::DateTime::to_rfc3339` writes it: a date, the letter `T`, a time
/// of day to the second, the fraction of the second where there is one,
/// and the offset `+00:00`.
pub open spec fn is_utc_timestamp(text: Seq<char>) -> bool {
    exists|date: Seq<char>, time: Seq<char>, fraction: Seq<char>|
        #![trigger is_date(date), is_time_of_day(time), is_fraction(fraction)]
        {
            &&& is_date(date)
            &&& is_time_of_day(time)
            &&& is_fraction(fraction)
            &&& text == date.push(DATE_END) + time + fraction + UTC_OFFSET@
        }
}

/// The current time in UTC as `chrono::Utc::now` reads it, written in
/// RFC 3339 form by `chrono::DateTime::to_rfc3339`.
///
/// Which time the text shows is not stated: it changes from call to call.
/// Not proved: that the text has the form that `to_rfc3339` gives every
/// time in UTC.
#[verifier::external_body]
pub(crate) fn now_rfc3339() -> (now: String)
    ensures
        is_utc_timestamp(now@),
{
    Utc::now().to_rfc3339()
}

} // verus!
