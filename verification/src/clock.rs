use vstd::prelude::*;

use crate::text::is_digit;
use crate::text::digit_value;

verus! {

/// Whether `s` reads `HH:MM`: two-digit hour `00`..`23`, a colon, two-digit minute `00`..`59`.
pub open spec fn is_clock_text(s: Seq<char>) -> bool {
    &&& s.len() == 5
    &&& is_digit(s[0]) && is_digit(s[1]) && s[2] == ':' && is_digit(s[3]) && is_digit(s[4])
    &&& digit_value(s[0]) * 10 + digit_value(s[1]) <= 23
    &&& digit_value(s[3]) * 10 + digit_value(s[4]) <= 59
}

/// The local wall-clock time as `HH:MM` (`chrono::Local::now().format("%H:%M")`).
/// Claimed: the text is a zero-padded hour and minute as chrono documents `%H:%M`;
/// which time it shows depends on the clock and is not stated.
#[verifier::external_body]
pub(crate) fn local_time_hhmm() -> (s: String)
    ensures
        is_clock_text(s@),
{
    chrono::Local::now().format("%H:%M").to_string()
}

} // verus!
