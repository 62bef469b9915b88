use vstd::prelude::*;

use chrono::{Datelike, NaiveDate, NaiveDateTime, Timelike};

verus! {

/// A UTC calendar timestamp at second precision.
#[derive(Clone, Copy, Debug, PartialEq, Eq, Hash, Structural)]
pub struct Timestamp {
    pub year: i32,
    pub month: u32,
    pub day: u32,
    pub hour: u32,
    pub minute: u32,
    pub second: u32,
}

pub open spec fn is_leap_year(y: int) -> bool {
    (y % 4 == 0 && y % 100 != 0) || y % 400 == 0
}

pub open spec fn days_in_month(y: int, m: int) -> int {
    if m == 2 {
        if is_leap_year(y) { 29 } else { 28 }
    } else if m == 4 || m == 6 || m == 9 || m == 11 {
        30
    } else {
        31
    }
}

/// The smallest year that a timestamp may carry.
pub const MIN_YEAR: i32 = -262144;

impl Timestamp {
    /// Calendar validity of every field.
    pub open spec fn wf(&self) -> bool {
        &&& MIN_YEAR <= self.year
        &&& 1 <= self.month <= 12
        &&& 1 <= self.day <= days_in_month(self.year as int, self.month as int)
        &&& self.hour < 24
        &&& self.minute < 60
        &&& self.second < 60
    }

    /// The position of the timestamp on the time line; the order of timestamps is
    /// the order of their keys.
    pub open spec fn key(&self) -> int {
        (((((self.year as int) * 13 + self.month as int) * 32 + self.day as int) * 24
            + self.hour as int) * 60 + self.minute as int) * 60 + self.second as int
    }

    /// The "none" sentinel: the earliest representable timestamp.
    pub fn min_value() -> (r: Timestamp)
        ensures
            r == (Timestamp { year: MIN_YEAR, month: 1, day: 1, hour: 0, minute: 0, second: 0 }),
            r.wf(),
            forall|t: Timestamp| t.wf() ==> r.key() <= #[trigger] t.key(),
    {
        Timestamp { year: MIN_YEAR, month: 1, day: 1, hour: 0, minute: 0, second: 0 }
    }

    /// The position of the timestamp on the time line.
    pub fn sort_key(&self) -> (r: i64)
        ensures
            r as int == self.key(),
    {
        (((((self.year as i64) * 13 + self.month as i64) * 32 + self.day as i64) * 24
            + self.hour as i64) * 60 + self.minute as i64) * 60 + self.second as i64
    }

    /// Strict precedence on the time line.
    pub fn is_before(&self, other: &Timestamp) -> (r: bool)
        ensures
            r == (self.key() < other.key()),
    {
        self.sort_key() < other.sort_key()
    }
}


/// The character of a decimal digit.
pub open spec fn digit_char(d: int) -> char {
    ((d + 48) as u32) as char
}

pub open spec fn is_digit(c: char) -> bool {
    '0' <= c && c <= '9'
}

/// The last `w` decimal digits of `n`, most significant first, padded with zeros.
pub open spec fn digits(n: int, w: nat) -> Seq<char>
    decreases w,
{
    if w == 0 {
        Seq::empty()
    } else {
        digits(n / 10, (w - 1) as nat).push(digit_char(n % 10))
    }
}

pub open spec fn all_digits(s: Seq<char>) -> bool {
    forall|i: int| 0 <= i < s.len() ==> is_digit(#[trigger] s[i])
}

/// Length of the `%Y%m%d%H%M%S` text of a timestamp with a four-digit year.
pub const TIMESTAMP_LEN: usize = 14;

/// The `%Y%m%d%H%M%S` text of a timestamp whose year has four digits.
pub open spec fn timestamp_text(t: Timestamp) -> Seq<char> {
    digits(t.year as int, 4) + digits(t.month as int, 2) + digits(t.day as int, 2) + digits(
        t.hour as int,
        2,
    ) + digits(t.minute as int, 2) + digits(t.second as int, 2)
}

/// The fields of a timestamp, from year down to second.
pub open spec fn fields(t: Timestamp) -> (int, int, int, int, int, int) {
    (t.year as int, t.month as int, t.day as int, t.hour as int, t.minute as int, t.second as int)
}

/// The timestamp with the given fields.
pub open spec fn from_fields(f: (int, int, int, int, int, int)) -> Timestamp {
    Timestamp {
        year: f.0 as i32,
        month: f.1 as u32,
        day: f.2 as u32,
        hour: f.3 as u32,
        minute: f.4 as u32,
        second: f.5 as u32,
    }
}

/// The fields (year down to second) of the date and time that chrono reads from a text
/// in the format `%Y%m%d%H%M%S`, if it reads one.
pub uninterp spec fn chrono_parsed(s: Seq<char>) -> Option<(int, int, int, int, int, int)>;

/// The timestamp that a `%Y%m%d%H%M%S` text denotes, if it denotes a valid one.
pub open spec fn parse_timestamp(s: Seq<char>) -> Option<Timestamp> {
    match chrono_parsed(s) {
        Some(f) => if from_fields(f).wf() {
            Some(from_fields(f))
        } else {
            None
        },
        None => None,
    }
}

/// The digits of a number that is not negative are decimal digit characters.
pub proof fn lemma_digits_shape(n: int, w: nat)
    requires
        n >= 0,
    ensures
        digits(n, w).len() == w,
        all_digits(digits(n, w)),
    decreases w,
{
    if w > 0 {
        lemma_digits_shape(n / 10, (w - 1) as nat);
        let d = digits(n / 10, (w - 1) as nat);
        let c = digit_char(n % 10);
        assert(all_digits(d.push(c))) by {
            assert forall|i: int| 0 <= i < d.push(c).len() implies is_digit(
                #[trigger] d.push(c)[i],
            ) by {
                if i < d.len() {
                    assert(is_digit(d[i]));
                }
            }
        }
    }
}

/// The text of a timestamp with a four-digit year has 14 digit characters.
pub proof fn lemma_timestamp_text_shape(t: Timestamp)
    requires
        t.wf(),
        t.has_text_form(),
    ensures
        timestamp_text(t).len() == TIMESTAMP_LEN,
        all_digits(timestamp_text(t)),
{
    let y = digits(t.year as int, 4);
    let mo = digits(t.month as int, 2);
    let d = digits(t.day as int, 2);
    let h = digits(t.hour as int, 2);
    let mi = digits(t.minute as int, 2);
    let se = digits(t.second as int, 2);
    lemma_digits_shape(t.year as int, 4);
    lemma_digits_shape(t.month as int, 2);
    lemma_digits_shape(t.day as int, 2);
    lemma_digits_shape(t.hour as int, 2);
    lemma_digits_shape(t.minute as int, 2);
    lemma_digits_shape(t.second as int, 2);
    let s = timestamp_text(t);
    assert forall|i: int| 0 <= i < s.len() implies is_digit(#[trigger] s[i]) by {
        if i < 4 {
            assert(s[i] == y[i]);
        } else if i < 6 {
            assert(s[i] == mo[i - 4]);
        } else if i < 8 {
            assert(s[i] == d[i - 6]);
        } else if i < 10 {
            assert(s[i] == h[i - 8]);
        } else if i < 12 {
            assert(s[i] == mi[i - 10]);
        } else {
            assert(s[i] == se[i - 12]);
        }
    }
}

impl Timestamp {
    /// Whether the year has the four digits of the identifier's timestamp field.
    pub open spec fn has_text_form(&self) -> bool {
        0 <= self.year <= 9999
    }
}

/// Relies on `chrono::NaiveDateTime::parse_from_str` with `%Y%m%d%H%M%S`: the date and
/// time it reads, as calendar fields.
#[verifier::external_body]
fn parse_chrono(s: &str) -> (r: Option<Timestamp>)
    ensures
        r == match chrono_parsed(s@) {
            Some(f) => Some(from_fields(f)),
            None => None::<Timestamp>,
        },
{
    NaiveDateTime::parse_from_str(s, "%Y%m%d%H%M%S").ok().map(|t| Timestamp {
        year: t.year(),
        month: t.month(),
        day: t.day(),
        hour: t.hour(),
        minute: t.minute(),
        second: t.second(),
    })
}

/// Relies on chrono's `format("%Y%m%d%H%M%S")` of a `NaiveDateTime`: a year from 0 to
/// 9999 is written with four digits and the other fields with two, zero-padded; and
/// `parse_from_str` with the same format reads that text back to the same fields.
#[verifier::external_body]
fn format_chrono(t: &Timestamp) -> (r: String)
    requires
        t.wf(),
        t.has_text_form(),
    ensures
        r@ == timestamp_text(*t),
        chrono_parsed(r@) == Some(fields(*t)),
{
    NaiveDate::from_ymd_opt(t.year, t.month, t.day)
        .and_then(|d| d.and_hms_opt(t.hour, t.minute, t.second))
        .map(|dt| dt.format("%Y%m%d%H%M%S").to_string())
        .unwrap()
}

impl Timestamp {
    /// The number of days of a month.
    fn month_length(year: i32, month: u32) -> (r: u32)
        ensures
            r as int == days_in_month(year as int, month as int),
    {
        if month == 2 {
            if (year % 4 == 0 && year % 100 != 0) || year % 400 == 0 {
                29
            } else {
                28
            }
        } else if month == 4 || month == 6 || month == 9 || month == 11 {
            30
        } else {
            31
        }
    }

    /// Reports whether every field lies in its calendar range.
    pub fn is_valid(&self) -> (r: bool)
        ensures
            r == self.wf(),
    {
        MIN_YEAR <= self.year && 1 <= self.month && self.month <= 12 && 1 <= self.day
            && self.day <= Self::month_length(self.year, self.month) && self.hour < 24
            && self.minute < 60 && self.second < 60
    }

    /// The `%Y%m%d%H%M%S` text; reading it back gives the timestamp again.
    pub fn to_string(&self) -> (r: String)
        requires
            self.wf(),
            self.has_text_form(),
        ensures
            r@ == timestamp_text(*self),
            parse_timestamp(r@) == Some(*self),
    {
        let r = format_chrono(self);
        assert(from_fields(fields(*self)) == *self);
        r
    }

    /// Parses the `%Y%m%d%H%M%S` text form.
    pub fn parse(s: &str) -> (r: Option<Timestamp>)
        ensures
            r == parse_timestamp(s@),
    {
        match parse_chrono(s) {
            Some(t) => {
                if t.is_valid() {
                    Some(t)
                } else {
                    None
                }
            },
            None => None,
        }
    }
}

} // verus!
