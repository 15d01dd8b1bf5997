//! Points in time, as the task store writes them: sixteen characters,
//! `YYYYMMDDTHHMMSSZ`, in UTC, to the second, without punctuation.

use vstd::prelude::*;
use chrono::{Datelike, Timelike};
use crate::error::Error;
use crate::text::{digit_char, digit_of, digit_text, digit_value, is_digit};

verus! {

/// A point in time, by its calendar fields in UTC.
#[derive(Clone, Copy, Debug, PartialEq, Eq, Structural)]
pub struct Timestamp {
    pub year: u16,
    pub month: u8,
    pub day: u8,
    pub hour: u8,
    pub minute: u8,
    pub second: u8,
}

/// Whether `year` is a leap year of the Gregorian calendar.
pub open spec fn is_leap(year: int) -> bool {
    year % 4 == 0 && (year % 100 != 0 || year % 400 == 0)
}

/// The number of days of a month, from 1 to 12, of `year`.
pub open spec fn days_in_month(year: int, month: int) -> int {
    if month == 2 {
        if is_leap(year) {
            29
        } else {
            28
        }
    } else if month == 4 || month == 6 || month == 9 || month == 11 {
        30
    } else {
        31
    }
}

/// Two decimal digits for a number below 100.
pub open spec fn two_digits(n: int) -> Seq<char> {
    seq![digit_char(n / 10), digit_char(n % 10)]
}

/// Four decimal digits for a number below 10000.
pub open spec fn four_digits(n: int) -> Seq<char> {
    two_digits(n / 100) + two_digits(n % 100)
}

/// The number that the two digits of `s` at `i` write.
pub open spec fn pair_at(s: Seq<char>, i: int) -> int {
    digit_of(s[i]) * 10 + digit_of(s[i + 1])
}

/// Whether `s` has the shape of a timestamp: sixteen characters, a `T`
/// after eight digits, a `Z` after six more.
pub open spec fn shaped(s: Seq<char>) -> bool {
    &&& s.len() == 16
    &&& forall|i: int| 0 <= i < 8 ==> is_digit(#[trigger] s[i])
    &&& s[8] == 'T'
    &&& forall|i: int| 9 <= i < 15 ==> is_digit(#[trigger] s[i])
    &&& s[15] == 'Z'
}

/// The fields that a text of that shape writes, whether or not they
/// are a date and a time.
pub open spec fn fields_of(s: Seq<char>) -> Timestamp {
    Timestamp {
        year: (pair_at(s, 0) * 100 + pair_at(s, 2)) as u16,
        month: pair_at(s, 4) as u8,
        day: pair_at(s, 6) as u8,
        hour: pair_at(s, 9) as u8,
        minute: pair_at(s, 11) as u8,
        second: pair_at(s, 13) as u8,
    }
}

/// The timestamp that a text writes, if it writes one: it has the
/// shape, and its fields are a day of the calendar and a time of day.
pub open spec fn text_timestamp(s: Seq<char>) -> Option<Timestamp> {
    if shaped(s) && fields_of(s).wf() {
        Some(fields_of(s))
    } else {
        None
    }
}

/// The text of a timestamp.
pub open spec fn timestamp_text(t: Timestamp) -> Seq<char> {
    four_digits(t.year as int) + two_digits(t.month as int) + two_digits(t.day as int) + seq!['T']
        + two_digits(t.hour as int) + two_digits(t.minute as int) + two_digits(t.second as int)
        + seq!['Z']
}

/// The calendar fields of the instant `seconds` after the beginning of
/// 1970 in UTC, as `chrono::DateTime::from_timestamp` and the readers
/// of `Datelike` and `Timelike` give them: year, month, day, hour,
/// minute, second. None where chrono has no such instant.
pub uninterp spec fn civil_of_unix(seconds: i64) -> Option<(i32, u32, u32, u32, u32, u32)>;

/// `chrono::DateTime::from_timestamp`, read by `year`, `month`, `day`,
/// `hour`, `minute` and `second`. The contract only names the result.
#[verifier::external_body]
fn civil_fields(seconds: i64) -> (r: Option<(i32, u32, u32, u32, u32, u32)>)
    ensures
        r == civil_of_unix(seconds),
{
    let t = chrono::DateTime::from_timestamp(seconds, 0)?;
    Some((t.year(), t.month(), t.day(), t.hour(), t.minute(), t.second()))
}

/// The timestamp with these fields, if they are within its ranges.
pub open spec fn timestamp_of_fields(f: (i32, u32, u32, u32, u32, u32)) -> Option<Timestamp> {
    if 0 <= f.0 <= 9999 && f.1 <= 255 && f.2 <= 255 && f.3 <= 255 && f.4 <= 255 && f.5 <= 255 && (
    Timestamp {
        year: f.0 as u16,
        month: f.1 as u8,
        day: f.2 as u8,
        hour: f.3 as u8,
        minute: f.4 as u8,
        second: f.5 as u8,
    }).wf() {
        Some(
            Timestamp {
                year: f.0 as u16,
                month: f.1 as u8,
                day: f.2 as u8,
                hour: f.3 as u8,
                minute: f.4 as u8,
                second: f.5 as u8,
            },
        )
    } else {
        None
    }
}

/// Reads the two digits of `s` at `i`.
fn pair(s: &str, i: usize) -> (r: Option<u8>)
    requires
        i <= 14,
        i + 1 < s@.len(),
    ensures
        r is Some <==> is_digit(s@[i as int]) && is_digit(s@[i + 1]),
        r matches Some(n) ==> n == pair_at(s@, i as int) && n < 100,
{
    let high = match digit_value(s.get_char(i)) {
        Some(d) => d,
        None => {
            return None;
        },
    };
    let low = match digit_value(s.get_char(i + 1)) {
        Some(d) => d,
        None => {
            return None;
        },
    };
    Some(high * 10 + low)
}

/// Appends the two digits of `n` to `out`.
fn push_pair(out: &mut String, n: u8)
    requires
        n < 100,
    ensures
        final(out)@ == old(out)@ + two_digits(n as int),
{
    out.append(digit_text(n / 10));
    out.append(digit_text(n % 10));
    assert(out@ =~= old(out)@ + two_digits(n as int));
}

impl Timestamp {
    /// Whether the fields are a day of the calendar and a time of day:
    /// a year of four digits, a month, a day of that month, and a time
    /// to the second, where a leap second may stand as second 60.
    pub open spec fn wf(&self) -> bool {
        &&& self.year <= 9999
        &&& 1 <= self.month <= 12
        &&& 1 <= self.day <= days_in_month(self.year as int, self.month as int)
        &&& self.hour <= 23
        &&& self.minute <= 59
        &&& self.second <= 60
    }

    /// Whether the fields are a day of the calendar and a time of day.
    pub fn is_valid(&self) -> (r: bool)
        ensures
            r == self.wf(),
    {
        if self.year > 9999 || self.month < 1 || self.month > 12 || self.day < 1 {
            return false;
        }
        let leap = self.year % 4 == 0 && (self.year % 100 != 0 || self.year % 400 == 0);
        let days: u8 = if self.month == 2 {
            if leap {
                29
            } else {
                28
            }
        } else if self.month == 4 || self.month == 6 || self.month == 9 || self.month == 11 {
            30
        } else {
            31
        };
        self.day <= days && self.hour <= 23 && self.minute <= 59 && self.second <= 60
    }

    /// The timestamp with these fields, if they are a date and a time.
    pub fn new(year: u16, month: u8, day: u8, hour: u8, minute: u8, second: u8) -> (r: Option<
        Timestamp,
    >)
        ensures
            r == if (Timestamp { year, month, day, hour, minute, second }).wf() {
                Some(Timestamp { year, month, day, hour, minute, second })
            } else {
                None
            },
    {
        let t = Timestamp { year, month, day, hour, minute, second };
        if t.is_valid() {
            Some(t)
        } else {
            None
        }
    }

    /// The timestamp of the instant `seconds` after the beginning of
    /// 1970 in UTC, if it lies in a year of four digits.
    pub fn from_unix(seconds: i64) -> (r: Option<Timestamp>)
        ensures
            r == match civil_of_unix(seconds) {
                Some(fields) => timestamp_of_fields(fields),
                None => None,
            },
            r matches Some(t) ==> t.wf(),
    {
        match civil_fields(seconds) {
            None => None,
            Some(fields) => Timestamp::from_fields(fields),
        }
    }

    /// The timestamp with the fields that a calendar gave, if they are
    /// within the ranges of a timestamp.
    pub fn from_fields(fields: (i32, u32, u32, u32, u32, u32)) -> (r: Option<Timestamp>)
        ensures
            r == timestamp_of_fields(fields),
    {
        let (year, month, day, hour, minute, second) = fields;
        if year < 0 || year > 9999 || month > 255 || day > 255 || hour > 255 || minute > 255
            || second > 255 {
            return None;
        }
        Timestamp::new(
            year as u16,
            month as u8,
            day as u8,
            hour as u8,
            minute as u8,
            second as u8,
        )
    }

    /// Reads a timestamp. Any text but the sixteen characters of a
    /// date and a time is refused with `Error::Format`.
    pub fn parse(s: &str) -> (r: Result<Timestamp, Error>)
        ensures
            match r {
                Ok(t) => text_timestamp(s@) == Some(t) && t.wf(),
                Err(e) => e == Error::Format && text_timestamp(s@) is None,
            },
    {
        if s.unicode_len() != 16 {
            return Err(Error::Format);
        }
        if s.get_char(8) != 'T' || s.get_char(15) != 'Z' {
            return Err(Error::Format);
        }
        let century = pair(s, 0);
        let years = pair(s, 2);
        let month = pair(s, 4);
        let day = pair(s, 6);
        let hour = pair(s, 9);
        let minute = pair(s, 11);
        let second = pair(s, 13);
        match (century, years, month, day, hour, minute, second) {
            (Some(c), Some(y), Some(mo), Some(d), Some(h), Some(mi), Some(sec)) => {
                assert(shaped(s@)) by {
                    assert forall|i: int| 0 <= i < 8 implies is_digit(#[trigger] s@[i]) by {
                        assert(i == 0 || i == 1 || i == 2 || i == 3 || i == 4 || i == 5 || i == 6
                            || i == 7);
                    }
                    assert forall|i: int| 9 <= i < 15 implies is_digit(#[trigger] s@[i]) by {
                        assert(i == 9 || i == 10 || i == 11 || i == 12 || i == 13 || i == 14);
                    }
                }
                let t = Timestamp {
                    year: c as u16 * 100 + y as u16,
                    month: mo,
                    day: d,
                    hour: h,
                    minute: mi,
                    second: sec,
                };
                assert(t == fields_of(s@));
                if t.is_valid() {
                    Ok(t)
                } else {
                    Err(Error::Format)
                }
            },
            _ => {
                assert(!shaped(s@)) by {
                    if shaped(s@) {
                        assert(is_digit(s@[0]) && is_digit(s@[1]) && is_digit(s@[2]) && is_digit(
                            s@[3],
                        ));
                        assert(is_digit(s@[4]) && is_digit(s@[5]) && is_digit(s@[6]) && is_digit(
                            s@[7],
                        ));
                        assert(is_digit(s@[9]) && is_digit(s@[10]) && is_digit(s@[11])
                            && is_digit(s@[12]));
                        assert(is_digit(s@[13]) && is_digit(s@[14]));
                    }
                }
                Err(Error::Format)
            },
        }
    }

    /// Writes the timestamp as the task store does.
    pub fn format(&self) -> (r: String)
        requires
            self.wf(),
        ensures
            r@ == timestamp_text(*self),
    {
        let mut out = String::new();
        push_pair(&mut out, (self.year / 100) as u8);
        push_pair(&mut out, (self.year % 100) as u8);
        assert(out@ =~= four_digits(self.year as int));
        push_pair(&mut out, self.month);
        push_pair(&mut out, self.day);
        proof {
            reveal_strlit("T");
            reveal_strlit("Z");
        }
        out.append("T");
        push_pair(&mut out, self.hour);
        push_pair(&mut out, self.minute);
        push_pair(&mut out, self.second);
        out.append("Z");
        assert(out@ =~= timestamp_text(*self));
        out
    }
}

/// Two digits write a number below 100, and that number is written
/// by the same two digits.
pub proof fn lemma_pair(s: Seq<char>, i: int)
    requires
        0 <= i,
        i + 1 < s.len(),
        is_digit(s[i]),
        is_digit(s[i + 1]),
    ensures
        0 <= pair_at(s, i) < 100,
        two_digits(pair_at(s, i)) == seq![s[i], s[i + 1]],
{
    let n = pair_at(s, i);
    assert(n / 10 == digit_of(s[i]));
    assert(n % 10 == digit_of(s[i + 1]));
    assert(digit_char(digit_of(s[i])) == s[i]);
    assert(digit_char(digit_of(s[i + 1])) == s[i + 1]);
    assert(two_digits(n) =~= seq![s[i], s[i + 1]]);
}

/// The two digits of a number below 100 write that number.
pub proof fn lemma_two_digits(n: int)
    requires
        0 <= n < 100,
    ensures
        two_digits(n).len() == 2,
        is_digit(two_digits(n)[0]),
        is_digit(two_digits(n)[1]),
        pair_at(two_digits(n), 0) == n,
{
    assert(digit_of(digit_char(n / 10)) == n / 10);
    assert(digit_of(digit_char(n % 10)) == n % 10);
}

/// A timestamp is read back from its text.
pub proof fn lemma_format_then_parse(t: Timestamp)
    requires
        t.wf(),
    ensures
        text_timestamp(timestamp_text(t)) == Some(t),
{
    let s = timestamp_text(t);
    let year = t.year as int;
    lemma_two_digits(year / 100);
    lemma_two_digits(year % 100);
    lemma_two_digits(t.month as int);
    lemma_two_digits(t.day as int);
    lemma_two_digits(t.hour as int);
    lemma_two_digits(t.minute as int);
    lemma_two_digits(t.second as int);
    assert(s.len() == 16);
    assert(s.subrange(0, 2) =~= two_digits(year / 100));
    assert(s.subrange(2, 4) =~= two_digits(year % 100));
    assert(s.subrange(4, 6) =~= two_digits(t.month as int));
    assert(s.subrange(6, 8) =~= two_digits(t.day as int));
    assert(s.subrange(9, 11) =~= two_digits(t.hour as int));
    assert(s.subrange(11, 13) =~= two_digits(t.minute as int));
    assert(s.subrange(13, 15) =~= two_digits(t.second as int));
    lemma_pair_of_subrange(s, 0);
    lemma_pair_of_subrange(s, 2);
    lemma_pair_of_subrange(s, 4);
    lemma_pair_of_subrange(s, 6);
    lemma_pair_of_subrange(s, 9);
    lemma_pair_of_subrange(s, 11);
    lemma_pair_of_subrange(s, 13);
    assert(s[8] == 'T');
    assert(s[15] == 'Z');
    assert(shaped(s)) by {
        assert forall|i: int| 0 <= i < 8 implies is_digit(#[trigger] s[i]) by {
            assert(i == 0 || i == 1 || i == 2 || i == 3 || i == 4 || i == 5 || i == 6 || i == 7);
        }
        assert forall|i: int| 9 <= i < 15 implies is_digit(#[trigger] s[i]) by {
            assert(i == 9 || i == 10 || i == 11 || i == 12 || i == 13 || i == 14);
        }
    }
    assert(fields_of(s) == t);
}

/// What two characters of a text write is what they write when cut out.
pub proof fn lemma_pair_of_subrange(s: Seq<char>, i: int)
    requires
        0 <= i,
        i + 2 <= s.len(),
    ensures
        pair_at(s, i) == pair_at(s.subrange(i, i + 2), 0),
        s[i] == s.subrange(i, i + 2)[0],
        s[i + 1] == s.subrange(i, i + 2)[1],
{
}

/// A text that is read as a timestamp is the text of that timestamp:
/// no two texts write the same one.
pub proof fn lemma_parse_then_format(s: Seq<char>)
    requires
        text_timestamp(s) is Some,
    ensures
        timestamp_text(text_timestamp(s)->0) == s,
{
    let t = fields_of(s);
    assert(is_digit(s[0]) && is_digit(s[1]) && is_digit(s[2]) && is_digit(s[3]));
    assert(is_digit(s[4]) && is_digit(s[5]) && is_digit(s[6]) && is_digit(s[7]));
    assert(is_digit(s[9]) && is_digit(s[10]) && is_digit(s[11]) && is_digit(s[12]));
    assert(is_digit(s[13]) && is_digit(s[14]));
    lemma_pair(s, 0);
    lemma_pair(s, 2);
    lemma_pair(s, 4);
    lemma_pair(s, 6);
    lemma_pair(s, 9);
    lemma_pair(s, 11);
    lemma_pair(s, 13);
    let year = pair_at(s, 0) * 100 + pair_at(s, 2);
    assert(year / 100 == pair_at(s, 0));
    assert(year % 100 == pair_at(s, 2));
    assert(t.year == year);
    assert(four_digits(year) == seq![s[0], s[1]] + seq![s[2], s[3]]);
    assert(timestamp_text(t) =~= s);
}

} // verus!
