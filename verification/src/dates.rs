//! Calendar dates, their `YYYY-MM-DD` text form, and the current date.
//!
//! A date is held as plain year, month and day values with the calendar
//! validity rules spelled out, so date logic is checked here; only reading
//! the clock is left to an outside call.

use crate::text::{
    all_digit_chars, digits_val, is_digit, is_digit_char, lemma_digits_val_bounds,
    lemma_digits_val_push, lemma_pow10_concrete, lemma_pow10_mono, lemma_subrange_push, pow10,
};
use chrono::Datelike;
use vstd::prelude::*;

verus! {

pub open spec fn is_leap_year(y: int) -> bool {
    (y % 4 == 0 && y % 100 != 0) || y % 400 == 0
}

pub open spec fn days_in_month(y: int, m: int) -> int {
    if m == 2 {
        if is_leap_year(y) {
            29
        } else {
            28
        }
    } else if m == 4 || m == 6 || m == 9 || m == 11 {
        30
    } else {
        31
    }
}

/// A calendar date, independent of any creation time.
#[derive(Clone, Copy, PartialEq, Eq, Structural, Debug)]
pub struct Date {
    pub year: i32,
    pub month: u8,
    pub day: u8,
}

impl Date {
    /// A real calendar date: the month exists and the day exists in it.
    pub open spec fn wf(self) -> bool {
        1 <= self.month <= 12 && 1 <= self.day <= days_in_month(
            self.year as int,
            self.month as int,
        )
    }

    /// A single integer that orders dates chronologically.
    pub open spec fn key(self) -> int {
        self.year as int * 10000 + self.month as int * 100 + self.day as int
    }

    pub open spec fn same_month(self, other: Date) -> bool {
        self.year == other.year && self.month == other.month
    }

    pub fn new(year: i32, month: u8, day: u8) -> (r: Date)
        ensures
            r.year == year,
            r.month == month,
            r.day == day,
    {
        Date { year, month, day }
    }

    pub fn le(&self, other: &Date) -> (r: bool)
        requires
            self.wf(),
            other.wf(),
        ensures
            r == (self.key() <= other.key()),
    {
        if self.year != other.year {
            self.year < other.year
        } else if self.month != other.month {
            self.month < other.month
        } else {
            self.day <= other.day
        }
    }

    pub fn lt(&self, other: &Date) -> (r: bool)
        requires
            self.wf(),
            other.wf(),
        ensures
            r == (self.key() < other.key()),
    {
        if self.year != other.year {
            self.year < other.year
        } else if self.month != other.month {
            self.month < other.month
        } else {
            self.day < other.day
        }
    }

    pub fn in_same_month(&self, other: &Date) -> (r: bool)
        ensures
            r == self.same_month(*other),
    {
        self.year == other.year && self.month == other.month
    }

    /// The `YYYY-MM-DD` text of the date.
    pub fn to_text(&self) -> (r: String)
        requires
            self.wf(),
            0 <= self.year <= 9999,
        ensures
            r@ == date_text(*self),
    {
        let mut out: Vec<char> = Vec::new();
        crate::text::push_padded_digits(&mut out, self.year as u128, 4);
        out.push('-');
        crate::text::push_padded_digits(&mut out, self.month as u128, 2);
        out.push('-');
        crate::text::push_padded_digits(&mut out, self.day as u128, 2);
        proof {
            assert(out@ =~= date_text(*self));
        }
        crate::text::chars_to_string(&out)
    }
}

/// The `YYYY-MM-DD` rendering of a date.
pub open spec fn date_text(d: Date) -> Seq<char> {
    crate::text::padded_digits(d.year as int, 4) + seq!['-'] + crate::text::padded_digits(
        d.month as int,
        2,
    ) + seq!['-'] + crate::text::padded_digits(d.day as int, 2)
}

/// The date a well-shaped `YYYY-MM-DD` text names.
pub open spec fn date_of_text(s: Seq<char>) -> Date {
    Date {
        year: digits_val(s.subrange(0, 4)) as i32,
        month: digits_val(s.subrange(5, 7)) as u8,
        day: digits_val(s.subrange(8, 10)) as u8,
    }
}

/// Ten characters, digits except the two separating dashes, naming a real
/// calendar date.
pub open spec fn valid_date_text(s: Seq<char>) -> bool {
    s.len() == 10 && s[4] == '-' && s[7] == '-' && all_digit_chars(s.subrange(0, 4))
        && all_digit_chars(s.subrange(5, 7)) && all_digit_chars(s.subrange(8, 10))
        && date_of_text(s).wf()
}

fn days_in_month_exec(y: i32, m: u8) -> (r: u8)
    requires
        y >= 0,
        1 <= m <= 12,
    ensures
        r == days_in_month(y as int, m as int),
{
    if m == 2 {
        if (y % 4 == 0 && y % 100 != 0) || y % 400 == 0 {
            29
        } else {
            28
        }
    } else if m == 4 || m == 6 || m == 9 || m == 11 {
        30
    } else {
        31
    }
}

/// The value of the digits at positions `[a, b)` of `s`.
fn digits_range_value(s: &str, a: usize, b: usize) -> (r: u32)
    requires
        a <= b <= s@.len(),
        b - a <= 4,
        forall|j: int| a <= j < b ==> is_digit_char(#[trigger] s@[j]),
    ensures
        r == digits_val(s@.subrange(a as int, b as int)),
        r < pow10((b - a) as nat),
{
    let mut acc: u32 = 0;
    let mut i: usize = a;
    proof {
        assert(s@.subrange(a as int, a as int) =~= Seq::<char>::empty());
    }
    while i < b
        invariant
            a <= i <= b <= s@.len(),
            b - a <= 4,
            forall|j: int| a <= j < b ==> is_digit_char(#[trigger] s@[j]),
            acc == digits_val(s@.subrange(a as int, i as int)),
            acc < pow10((i - a) as nat),
        decreases b - i,
    {
        let c = s.get_char(i);
        let d = crate::text::digit_value(c);
        proof {
            lemma_subrange_push(s@, a as int, i as int);
            lemma_digits_val_push(s@.subrange(a as int, i as int), s@[i as int]);
            lemma_pow10_concrete();
            lemma_pow10_mono((i - a) as nat, 4);
            lemma_digits_val_bounds(s@.subrange(a as int, i + 1));
        }
        acc = acc * 10 + d;
        i = i + 1;
    }
    proof {
        lemma_digits_val_bounds(s@.subrange(a as int, b as int));
    }
    acc
}

/// Parses a strict `YYYY-MM-DD` date text into a real calendar date.
pub fn parse_date(s: &str) -> (r: Option<Date>)
    ensures
        valid_date_text(s@) ==> r == Some(date_of_text(s@)),
        !valid_date_text(s@) ==> r is None,
{
    let n = s.unicode_len();
    if n != 10 {
        return None;
    }
    let mut i: usize = 0;
    while i < 10
        invariant
            0 <= i <= 10,
            s@.len() == 10,
            forall|j: int|
                0 <= j < i ==> if j == 4 || j == 7 {
                    s@[j] == '-'
                } else {
                    is_digit_char(#[trigger] s@[j])
                },
        decreases 10 - i,
    {
        let c = s.get_char(i);
        if i == 4 || i == 7 {
            if c != '-' {
                return None;
            }
        } else {
            if !is_digit(c) {
                proof {
                    if i < 4 {
                        assert(s@.subrange(0, 4)[i as int] == s@[i as int]);
                    } else if 5 <= i && i < 7 {
                        assert(s@.subrange(5, 7)[i - 5] == s@[i as int]);
                    } else {
                        assert(s@.subrange(8, 10)[i - 8] == s@[i as int]);
                    }
                }
                return None;
            }
        }
        i = i + 1;
    }
    proof {
        assert forall|k: int| 0 <= k < 4 implies is_digit_char(#[trigger] s@.subrange(0, 4)[k]) by {
            assert(s@.subrange(0, 4)[k] == s@[k]);
        }
        assert forall|k: int| 0 <= k < 2 implies is_digit_char(#[trigger] s@.subrange(5, 7)[k]) by {
            assert(s@.subrange(5, 7)[k] == s@[k + 5]);
        }
        assert forall|k: int| 0 <= k < 2 implies is_digit_char(
            #[trigger] s@.subrange(8, 10)[k],
        ) by {
            assert(s@.subrange(8, 10)[k] == s@[k + 8]);
        }
        lemma_pow10_concrete();
    }
    let y = digits_range_value(s, 0, 4);
    let m = digits_range_value(s, 5, 7);
    let d = digits_range_value(s, 8, 10);
    if m < 1 || m > 12 {
        return None;
    }
    let dim = days_in_month_exec(y as i32, m as u8);
    if d < 1 || d as u8 > dim {
        return None;
    }
    let date = Date { year: y as i32, month: m as u8, day: d as u8 };
    proof {
        assert(date == date_of_text(s@));
        assert(valid_date_text(s@));
    }
    Some(date)
}

/// Relies on chrono's `Utc::now` and `date_naive`: whatever moment the clock
/// reports, the reading is a real calendar date.
#[verifier::external_body]
pub(crate) fn chrono_today() -> (d: Date)
    ensures
        d.wf(),
{
    let now = chrono::Utc::now().date_naive();
    Date { year: now.year(), month: now.month() as u8, day: now.day() as u8 }
}

} // verus!
