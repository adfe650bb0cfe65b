//! The wall clock, read through `chrono`.
use vstd::prelude::*;

verus! {

/// The numeric value of an ASCII digit.
pub open spec fn digit_value(c: char) -> int {
    (c as u32) - 48
}

/// `c` is an ASCII digit.
pub open spec fn is_digit(c: char) -> bool {
    48 <= (c as u32) <= 57
}

/// The two digits at `i` and `i + 1` read as a number.
pub open spec fn two_digits(s: Seq<char>, i: int) -> int {
    digit_value(s[i]) * 10 + digit_value(s[i + 1])
}

/// `s` reads `HH:MM:SS`: hour 00 to 23, minute 00 to 59, second 00 to 60
/// (a leap second shows as 60).
pub open spec fn is_clock_time(s: Seq<char>) -> bool {
    &&& s.len() == 8
    &&& s[2] == ':' && s[5] == ':'
    &&& is_digit(s[0]) && is_digit(s[1]) && is_digit(s[3]) && is_digit(s[4])
    &&& is_digit(s[6]) && is_digit(s[7])
    &&& two_digits(s, 0) <= 23
    &&& two_digits(s, 3) <= 59
    &&& two_digits(s, 6) <= 60
}

/// Midnight, `00:00:00`.
pub open spec fn midnight() -> Seq<char> {
    seq!['0', '0', ':', '0', '0', ':', '0', '0']
}

/// Midnight is a clock time.
pub proof fn lemma_midnight_is_clock_time()
    ensures
        is_clock_time(midnight()),
{

}

/// The current local time rendered with a `strftime` pattern
/// (`chrono::Local::now` followed by `DateTime::format`). The value depends on
/// the clock; chrono's documentation gives `%H`, `%M` and `%S` as two-digit
/// hour (00-23), minute (00-59) and second (00-60), so with the pattern
/// `%H:%M:%S` the text has the shape of `is_clock_time`. Rendering panics on a
/// malformed pattern, so only that pattern is admitted.
#[verifier::external_body]
pub(crate) fn now_formatted(pattern: &str) -> (s: String)
    requires
        pattern@ == "%H:%M:%S"@,
    ensures
        is_clock_time(s@),
{
    chrono::Local::now().format(pattern).to_string()
}

/// Every character of `s` is an ASCII digit.
pub open spec fn all_digits(s: Seq<char>) -> bool {
    forall|i: int| 0 <= i < s.len() ==> is_digit(#[trigger] s[i])
}

/// A year as chrono writes it: four digits for years 0 to 9999, otherwise a
/// sign and at least four digits.
pub open spec fn is_year_text(s: Seq<char>) -> bool {
    ||| s.len() == 4 && all_digits(s)
    ||| s.len() >= 5 && (s[0] == '+' || s[0] == '-') && all_digits(s.drop_first())
}

/// A date `YEAR-MM-DD`.
pub open spec fn is_date_text(s: Seq<char>) -> bool {
    let n = s.len() as int;
    &&& n >= 10
    &&& is_year_text(s.take(n - 6))
    &&& s[n - 6] == '-' && s[n - 3] == '-'
    &&& is_digit(s[n - 5]) && is_digit(s[n - 4]) && is_digit(s[n - 2]) && is_digit(s[n - 1])
}

/// A time of day `HH:MM:SS`, followed by a fraction of three, six or nine
/// digits when it is not a whole second.
pub open spec fn is_time_text(s: Seq<char>) -> bool {
    &&& s.len() >= 8
    &&& is_clock_time(s.take(8))
    &&& s.len() == 8 || ((s.len() == 12 || s.len() == 15 || s.len() == 18) && s[8] == '.'
        && all_digits(s.skip(9)))
}

/// A UTC offset `+HH:MM` or `-HH:MM`, with `:SS` after it when the offset is
/// not a whole minute.
pub open spec fn is_offset_text(s: Seq<char>) -> bool {
    &&& s.len() == 6 || s.len() == 9
    &&& s[0] == '+' || s[0] == '-'
    &&& is_digit(s[1]) && is_digit(s[2]) && s[3] == ':' && is_digit(s[4]) && is_digit(s[5])
    &&& s.len() == 9 ==> s[6] == ':' && is_digit(s[7]) && is_digit(s[8])
}

/// A local date and time as chrono displays it: date, space, time, space,
/// UTC offset.
pub open spec fn is_local_date_time(s: Seq<char>) -> bool {
    exists|d: Seq<char>, t: Seq<char>, o: Seq<char>|
        #![trigger is_date_text(d), is_time_text(t), is_offset_text(o)]
        is_date_text(d) && is_time_text(t) && is_offset_text(o) && s == d + seq![' '] + t
            + seq![' '] + o
}

/// The current local date and time in the `Display` rendering of
/// `chrono::DateTime<Local>` (`chrono::Local::now` followed by `to_string`).
/// The value depends on the clock; chrono writes the local date (`NaiveDate`),
/// a space, the local time (`NaiveTime`), a space and the offset
/// (`FixedOffset`), which is the shape `is_local_date_time` states.
#[verifier::external_body]
pub(crate) fn now_displayed() -> (s: String)
    ensures
        is_local_date_time(s@),
{
    chrono::Local::now().to_string()
}

} // verus!
