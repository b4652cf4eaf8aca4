//! For how long a node has been ready, from the times that the cluster
//! reports with the node's `Ready` condition.

use crate::text::{all_digits, chars_of, digit_value, digits_value, is_digit};
use vstd::prelude::*;

verus! {

/// The first year that a time can lie in.
pub const FIRST_YEAR: u64 = 1970;

/// `year` has a 29th of February.
pub open spec fn is_leap_year(year: int) -> bool {
    year % 4 == 0 && (year % 100 != 0 || year % 400 == 0)
}

/// The number of days of a month.
pub open spec fn days_in_month(year: int, month: int) -> int {
    if month == 2 {
        if is_leap_year(year) {
            29
        } else {
            28
        }
    } else if month == 4 || month == 6 || month == 9 || month == 11 {
        30
    } else {
        31
    }
}

/// The number of days from the start of `FIRST_YEAR` to the start of `year`.
pub open spec fn days_before_year(year: int) -> int
    decreases year - FIRST_YEAR,
{
    if year <= FIRST_YEAR {
        0
    } else {
        days_before_year(year - 1) + if is_leap_year(year - 1) {
            366int
        } else {
            365int
        }
    }
}

/// The number of days from the start of `year` to the start of its month
/// `month`.
pub open spec fn days_before_month(year: int, month: int) -> int
    decreases month,
{
    if month <= 1 {
        0
    } else {
        days_before_month(year, month - 1) + days_in_month(year, month - 1)
    }
}

/// A date and a time of day, in universal time.
pub struct Moment {
    /// The year.
    pub year: u64,
    /// The month, from 1.
    pub month: u64,
    /// The day of the month, from 1.
    pub day: u64,
    /// The hour, from 0.
    pub hour: u64,
    /// The minute.
    pub minute: u64,
    /// The second.
    pub second: u64,
}

impl Moment {
    /// The moment exists: the year is `FIRST_YEAR` or later and has four
    /// digits, and the month has the day.
    pub open spec fn valid(self) -> bool {
        &&& FIRST_YEAR <= self.year <= 9999
        &&& 1 <= self.month <= 12
        &&& 1 <= self.day <= days_in_month(self.year as int, self.month as int)
        &&& self.hour <= 23
        &&& self.minute <= 59
        &&& self.second <= 59
    }

    /// The seconds from the start of `FIRST_YEAR` to the moment.
    pub open spec fn seconds(self) -> int {
        ((days_before_year(self.year as int) + days_before_month(
            self.year as int,
            self.month as int,
        ) + self.day - 1) * 24 + self.hour) * 3600 + self.minute * 60 + self.second
    }
}

/// The moment that a time stamp writes: year, month and day with `-` between
/// them, a `T`, hour, minute and second with `:` between them, and a `Z`;
/// four digits for the year and two for each other number.
pub open spec fn written_moment(s: Seq<char>) -> Option<Moment> {
    if s.len() == 20 && s[4] == '-' && s[7] == '-' && s[10] == 'T' && s[13] == ':' && s[16] == ':'
        && s[19] == 'Z' && all_digits(s.subrange(0, 4)) && all_digits(s.subrange(5, 7))
        && all_digits(s.subrange(8, 10)) && all_digits(s.subrange(11, 13)) && all_digits(
        s.subrange(14, 16),
    ) && all_digits(s.subrange(17, 19)) {
        Some(
            Moment {
                year: digits_value(s.subrange(0, 4)) as u64,
                month: digits_value(s.subrange(5, 7)) as u64,
                day: digits_value(s.subrange(8, 10)) as u64,
                hour: digits_value(s.subrange(11, 13)) as u64,
                minute: digits_value(s.subrange(14, 16)) as u64,
                second: digits_value(s.subrange(17, 19)) as u64,
            },
        )
    } else {
        None
    }
}

/// The seconds from the start of `FIRST_YEAR` to the moment that a time stamp
/// writes; `None` for text that is no time stamp or writes no moment that
/// exists.
pub open spec fn timestamp_seconds(s: Seq<char>) -> Option<nat> {
    match written_moment(s) {
        Some(moment) => if moment.valid() {
            Some(moment.seconds() as nat)
        } else {
            None
        },
        None => None,
    }
}

/// Whether `year` has a 29th of February.
fn leap_year(year: u64) -> (leap: bool)
    ensures
        leap == is_leap_year(year as int),
{
    year % 4 == 0 && (year % 100 != 0 || year % 400 == 0)
}

/// The number of days of a month.
fn month_days(year: u64, month: u64) -> (days: u64)
    ensures
        days == days_in_month(year as int, month as int),
        28 <= days <= 31,
{
    if month == 2 {
        if leap_year(year) {
            29
        } else {
            28
        }
    } else if month == 4 || month == 6 || month == 9 || month == 11 {
        30
    } else {
        31
    }
}

/// The seconds from the start of `FIRST_YEAR` to `moment`.
pub fn moment_seconds(moment: &Moment) -> (seconds: u64)
    requires
        moment.valid(),
    ensures
        seconds == moment.seconds(),
{
    let mut days: u64 = 0;
    let mut year: u64 = FIRST_YEAR;
    while year < moment.year
        invariant
            FIRST_YEAR <= year <= moment.year <= 9999,
            days == days_before_year(year as int),
            days <= 366 * (year - FIRST_YEAR),
        decreases moment.year - year,
    {
        days = days + if leap_year(year) { 366 } else { 365 };
        year += 1;
    }
    let mut month: u64 = 1;
    let ghost year_days = days;
    while month < moment.month
        invariant
            1 <= month <= moment.month <= 12,
            year_days == days_before_year(moment.year as int),
            year_days <= 366 * 8029,
            days == year_days + days_before_month(moment.year as int, month as int),
            days <= year_days + 31 * (month - 1),
        decreases moment.month - month,
    {
        days = days + month_days(moment.year, month);
        month += 1;
    }
    days = days + (moment.day - 1);
    (days * 24 + moment.hour) * 3600 + moment.minute * 60 + moment.second
}

/// The number that the two digits at `at` write.
fn two_digits(chars: &Vec<char>, at: usize) -> (number: Option<u64>)
    requires
        at + 2 <= chars.len(),
    ensures
        match number {
            Some(n) => all_digits(chars@.subrange(at as int, at + 2)) && n == digits_value(
                chars@.subrange(at as int, at + 2),
            ) && n <= 99,
            None => !all_digits(chars@.subrange(at as int, at + 2)),
        },
{
    let ghost field = chars@.subrange(at as int, at + 2);
    let a = chars[at];
    let b = chars[at + 1];
    assert(field[0] == a && field[1] == b);
    if a < '0' || a > '9' || b < '0' || b > '9' {
        assert(!is_digit(field[0]) || !is_digit(field[1]));
        return None;
    }
    proof {
        reveal_with_fuel(digits_value, 3);
        assert(field.drop_last().drop_last().len() == 0);
        assert(field.drop_last().last() == a);
        assert(field.last() == b);
    }
    Some((a as u32 - '0' as u32) as u64 * 10 + (b as u32 - '0' as u32) as u64)
}

/// Reads a time stamp.
pub fn read_moment(text: &str) -> (moment: Option<Moment>)
    ensures
        moment == written_moment(text@),
{
    let chars = chars_of(text);
    if chars.len() != 20 || chars[4] != '-' || chars[7] != '-' || chars[10] != 'T' || chars[13]
        != ':' || chars[16] != ':' || chars[19] != 'Z' {
        return None;
    }
    let century = match two_digits(&chars, 0) {
        Some(n) => n,
        None => {
            assert(!is_digit(chars@.subrange(0, 2)[0]) || !is_digit(chars@.subrange(0, 2)[1]));
            assert(chars@.subrange(0, 4)[0] == chars@.subrange(0, 2)[0]);
            assert(chars@.subrange(0, 4)[1] == chars@.subrange(0, 2)[1]);
            return None;
        },
    };
    let years = match two_digits(&chars, 2) {
        Some(n) => n,
        None => {
            assert(!is_digit(chars@.subrange(2, 4)[0]) || !is_digit(chars@.subrange(2, 4)[1]));
            assert(chars@.subrange(0, 4)[2] == chars@.subrange(2, 4)[0]);
            assert(chars@.subrange(0, 4)[3] == chars@.subrange(2, 4)[1]);
            return None;
        },
    };
    proof {
        let field = chars@.subrange(0, 4);
        let high = chars@.subrange(0, 2);
        let low = chars@.subrange(2, 4);
        assert forall|i: int| 0 <= i < 4 implies is_digit(#[trigger] field[i]) by {
            if i < 2 {
                assert(field[i] == high[i]);
            } else {
                assert(field[i] == low[i - 2]);
            }
        }
        reveal_with_fuel(digits_value, 5);
        assert(field.drop_last().drop_last() =~= high);
        assert(field.drop_last().last() == low[0]);
        assert(field.last() == low[1]);
        assert(low.drop_last().last() == low[0]);
        assert(low.drop_last().drop_last().len() == 0);
        assert(digits_value(low) == digit_value(low[0]) * 10 + digit_value(low[1]));
        assert(digits_value(field) == digits_value(high) * 100 + digits_value(low));
    }
    let month = match two_digits(&chars, 5) {
        Some(n) => n,
        None => {
            return None;
        },
    };
    let day = match two_digits(&chars, 8) {
        Some(n) => n,
        None => {
            return None;
        },
    };
    let hour = match two_digits(&chars, 11) {
        Some(n) => n,
        None => {
            return None;
        },
    };
    let minute = match two_digits(&chars, 14) {
        Some(n) => n,
        None => {
            return None;
        },
    };
    let second = match two_digits(&chars, 17) {
        Some(n) => n,
        None => {
            return None;
        },
    };
    Some(Moment { year: century * 100 + years, month, day, hour, minute, second })
}

/// Whether the moment exists.
pub fn moment_is_valid(moment: &Moment) -> (valid: bool)
    ensures
        valid == moment.valid(),
{
    FIRST_YEAR <= moment.year && moment.year <= 9999 && 1 <= moment.month && moment.month <= 12
        && 1 <= moment.day && moment.day <= month_days(moment.year, moment.month) && moment.hour
        <= 23 && moment.minute <= 59 && moment.second <= 59
}

/// The seconds from the start of `FIRST_YEAR` to the moment that the time
/// stamp `text` writes.
pub fn read_timestamp(text: &str) -> (seconds: Option<u64>)
    ensures
        match seconds {
            Some(n) => timestamp_seconds(text@) == Some(n as nat),
            None => timestamp_seconds(text@) is None,
        },
{
    match read_moment(text) {
        Some(moment) => if moment_is_valid(&moment) {
            Some(moment_seconds(&moment))
        } else {
            None
        },
        None => None,
    }
}

/// For how long a node has been ready, in seconds: the time from the last
/// change of its `Ready` condition to the last sign of life, where the
/// condition holds and the change does not come after the sign of life.
/// `None` for every other node: it is not ready.
pub open spec fn ready_seconds(ready: bool, last_heartbeat: nat, last_transition: nat) -> Option<
    nat,
> {
    if ready && last_heartbeat >= last_transition {
        Some((last_heartbeat - last_transition) as nat)
    } else {
        None
    }
}

/// For how long a node has been ready, from its `Ready` condition: whether
/// it holds, and the seconds at which the node was last heard of and at which
/// the condition last changed.
pub fn ready_duration(ready: bool, last_heartbeat: u64, last_transition: u64) -> (duration: Option<
    u64,
>)
    ensures
        match duration {
            Some(n) => ready_seconds(ready, last_heartbeat as nat, last_transition as nat) == Some(
                n as nat,
            ),
            None => ready_seconds(ready, last_heartbeat as nat, last_transition as nat) is None,
        },
{
    if ready && last_heartbeat >= last_transition {
        Some(last_heartbeat - last_transition)
    } else {
        None
    }
}

} // verus!
