//! The time of an observation, to the hour, and the calendar that says which
//! dates exist.

use crate::bytes::{
    first_occurrence, lemma_first_of_two, line_at, read_line, spec_first_occurrence, trim, trimmed,
};
use crate::number::{
    all_digits, digits_value, i32_value, integer_value, is_digit, parse_i32, parse_u32, u32_value,
};
use vstd::prelude::*;
use vstd::slice::slice_subrange;
use vstd::string::StringSliceAdditionalSpecFns;

verus! {

/// The year has a 29th of February.
pub open spec fn is_leap_year(year: int) -> bool {
    year % 4 == 0 && (year % 100 != 0 || year % 400 == 0)
}

/// Number of days of a month of the Gregorian calendar.
pub open spec fn days_in_month(year: int, month: int) -> int {
    if month == 2 {
        if is_leap_year(year) {
            29
        } else {
            28
        }
    } else if month == 4 || month == 6 || month == 9 || month == 11 {
        30
    } else {
        31
    }
}

/// The Gregorian calendar has the day `day` of month `month` of `year`.
pub open spec fn is_calendar_date(year: int, month: int, day: int) -> bool {
    1 <= month <= 12 && 1 <= day <= days_in_month(year, month)
}

/// First and last year of which `chrono` keeps dates.
pub const FIRST_YEAR: i32 = -262143;

pub const LAST_YEAR: i32 = 262142;

/// The day is one of the calendar, in a year of which `chrono` keeps dates.
pub open spec fn date_exists(year: i32, month: u32, day: u32) -> bool {
    &&& FIRST_YEAR <= year <= LAST_YEAR
    &&& is_calendar_date(year as int, month as int, day as int)
}

/// The year that a report means by the last two digits of a year: the years
/// 1970 to 2069 are the ones it can mean.
pub open spec fn year_of_century(two_digits: int) -> int {
    if two_digits < 70 {
        2000 + two_digits
    } else {
        1900 + two_digits
    }
}

/// The hour at which an observation was made. Minute and second are zero.
#[derive(Clone, Copy, Debug, PartialEq, Eq, Structural)]
pub struct ValidTime {
    pub year: i32,
    pub month: u32,
    pub day: u32,
    pub hour: u32,
}

impl ValidTime {
    /// The date exists, in a year that `chrono` can hold, and the hour is one
    /// of a day.
    pub open spec fn wf(&self) -> bool {
        &&& date_exists(self.year, self.month, self.day)
        &&& self.hour < 24
    }

    /// The hour `hour` of the given day, where there is such an hour.
    pub open spec fn spec_new(year: i32, month: u32, day: u32, hour: u32) -> Option<ValidTime> {
        let time = ValidTime { year, month, day, hour };
        if time.wf() {
            Some(time)
        } else {
            None
        }
    }

    /// Makes the hour `hour` of the given day. Gives `None` where the
    /// calendar has no such day, where the year is not one that `chrono` can
    /// hold, or where a day has no such hour.
    pub fn new(year: i32, month: u32, day: u32, hour: u32) -> (r: Option<ValidTime>)
        ensures
            r == ValidTime::spec_new(year, month, day, hour),
    {
        match date_from_ymd(year, month, day) {
            Some(date) => {
                if date_takes_hour(&date, hour) {
                    Some(ValidTime { year, month, day, hour })
                } else {
                    None
                }
            },
            None => None,
        }
    }
}

/// Expands the two digits by which a report gives a year.
pub fn full_year(two_digits: i32) -> (year: i32)
    requires
        two_digits <= i32::MAX - 1900,
    ensures
        year == year_of_century(two_digits as int),
        0 <= two_digits <= 99 ==> 1970 <= year <= 2069,
{
    if two_digits < 70 {
        two_digits + 2000
    } else {
        two_digits + 1900
    }
}

/// The label after which a report gives the time of its observation.
pub open spec fn time_label() -> Seq<u8> {
    "Observation time:".spec_bytes()
}

/// The text that gives the time: what follows the first occurrence of the
/// label up to the end of that line, without the white space at its ends.
/// `None` where the label does not occur or the text ends with it.
pub open spec fn time_token(text: Seq<u8>) -> Option<Seq<u8>> {
    let after = spec_first_occurrence(text, 0, time_label()) + time_label().len();
    if after < text.len() {
        Some(trimmed(line_at(text, after)))
    } else {
        None
    }
}

/// The time that a token gives. Its bytes 0 and 1 give the year within its
/// century, bytes 2 and 3 the month, bytes 4 and 5 the day, and bytes 7 and 8
/// the hour; byte 6 parts day and hour and is not read, nor is anything after
/// byte 8. `None` where the token is too short, where one of the four is no
/// number, or where there is no such hour on such a day.
pub open spec fn time_of_token(token: Seq<u8>) -> Option<ValidTime> {
    if token.len() < 9 {
        None
    } else {
        match (
            i32_value(token.subrange(0, 2)),
            u32_value(token.subrange(2, 4)),
            u32_value(token.subrange(4, 6)),
            u32_value(token.subrange(7, 9)),
        ) {
            (Some(year), Some(month), Some(day), Some(hour)) => ValidTime::spec_new(
                year_of_century(year as int) as i32,
                month,
                day,
                hour,
            ),
            _ => None,
        }
    }
}

/// The time of the observation that a section of text states.
pub open spec fn spec_parse_valid_time(text: Seq<u8>) -> Option<ValidTime> {
    match time_token(text) {
        Some(token) => time_of_token(token),
        None => None,
    }
}

/// Two bytes write an integer of at most two digits.
pub proof fn lemma_two_bytes(s: Seq<u8>)
    requires
        s.len() == 2,
    ensures
        i32_value(s) matches Some(v) ==> -9 <= v <= 99,
{
    reveal_with_fuel(digits_value, 3);
    if let Some(v) = integer_value(s, true) {
        let sign = s[0] == 0x2b || s[0] == 0x2d;
        if sign {
            let digits = s.subrange(1, 2);
            assert(is_digit(digits[0]));
            assert(digits.drop_last().len() == 0);
        } else {
            assert(is_digit(s[0]));
            assert(is_digit(s[1]));
            assert(s.drop_last().drop_last().len() == 0);
            assert(s.drop_last().last() == s[0]);
        }
    }
}

/// Reads the time that a token gives.
pub fn read_time(token: &[u8]) -> (r: Option<ValidTime>)
    ensures
        r == time_of_token(token@),
        r matches Some(time) ==> time.wf() && 1970 <= time.year < 2070,
{
    if token.len() < 9 {
        return None;
    }
    let year = match parse_i32(slice_subrange(token, 0, 2)) {
        Some(two_digits) => {
            proof {
                lemma_two_bytes(token@.subrange(0, 2));
            }
            full_year(two_digits)
        },
        None => {
            return None;
        },
    };
    let month = match parse_u32(slice_subrange(token, 2, 4)) {
        Some(month) => month,
        None => {
            return None;
        },
    };
    let day = match parse_u32(slice_subrange(token, 4, 6)) {
        Some(day) => day,
        None => {
            return None;
        },
    };
    let hour = match parse_u32(slice_subrange(token, 7, 9)) {
        Some(hour) => hour,
        None => {
            return None;
        },
    };
    ValidTime::new(year, month, day, hour)
}

/// Reads the time of the observation from the second section of a report.
/// Gives `None` where the section does not state a time that exists.
pub fn parse_valid_time(text: &str) -> (r: Option<ValidTime>)
    ensures
        r == spec_parse_valid_time(text.spec_bytes()),
        r matches Some(time) ==> time.wf(),
{
    let bytes = text.as_bytes();
    let label = "Observation time:".as_bytes();
    let at: usize = first_occurrence(bytes, 0, label);
    proof {
        lemma_first_of_two(bytes@, 0, label@, label@);
    }
    if at >= bytes.len() {
        return None;
    }
    let after: usize = at + label.len();
    if after >= bytes.len() {
        return None;
    }
    read_time(trim(read_line(bytes, after)))
}

#[verifier::external_type_specification]
#[verifier::external_body]
pub struct ExNaiveDate(chrono::NaiveDate);

/// `chrono::NaiveDate::from_ymd_opt`. The contract claims that it gives a date
/// exactly for the days of the Gregorian calendar, counted backwards before
/// its introduction, in the years from `FIRST_YEAR` to `LAST_YEAR`.
#[verifier::external_body]
fn date_from_ymd(year: i32, month: u32, day: u32) -> (r: Option<chrono::NaiveDate>)
    ensures
        r is Some <==> date_exists(year, month, day),
{
    chrono::NaiveDate::from_ymd_opt(year, month, day)
}

/// `chrono::NaiveDate::and_hms_opt` with minute and second zero. The contract
/// claims that it gives a time exactly for the hours 0 to 23.
#[verifier::external_body]
fn date_takes_hour(date: &chrono::NaiveDate, hour: u32) -> (r: bool)
    ensures
        r == (hour < 24),
{
    date.and_hms_opt(hour, 0, 0).is_some()
}

} // verus!
