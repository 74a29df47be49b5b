use crate::num::is_digit;
use vstd::prelude::*;

verus! {

/// A calendar date, held as plain year/month/day values.
///
/// The backing file stores dates as ISO-8601 `YYYY-MM-DD` text, so years are
/// limited to four digits.
#[derive(Clone, Copy, Debug, PartialEq, Eq, Structural)]
pub struct Date {
    pub year: u16,
    pub month: u8,
    pub day: u8,
}

pub open spec fn is_leap_year(year: int) -> bool {
    (year % 4 == 0 && year % 100 != 0) || year % 400 == 0
}

pub open spec fn days_in_month(year: int, month: int) -> int {
    if month == 2 {
        if is_leap_year(year) {
            29
        } else {
            28
        }
    } else if month == 4 || month == 6 || month == 9 || month == 11 {
        30
    } else {
        31
    }
}

impl Date {
    /// A valid calendar date with a four-digit year.
    pub open spec fn wf(self) -> bool {
        self.year <= 9999 && 1 <= self.month <= 12 && 1 <= self.day
            && self.day <= days_in_month(self.year as int, self.month as int)
    }

    /// Whether the fields make a valid calendar day.
    pub fn is_valid(&self) -> (r: bool)
        ensures
            r == self.wf(),
    {
        let leap = (self.year % 4 == 0 && self.year % 100 != 0) || self.year % 400 == 0;
        let max_day: u8 = if self.month == 2 {
            if leap {
                29
            } else {
                28
            }
        } else if self.month == 4 || self.month == 6 || self.month == 9 || self.month == 11 {
            30
        } else {
            31
        };
        self.year <= 9999 && 1 <= self.month && self.month <= 12 && 1 <= self.day && self.day
            <= max_day
    }

    /// Builds a date, rejecting anything that is not a valid calendar day.
    pub fn new(year: u16, month: u8, day: u8) -> (r: Option<Date>)
        ensures
            match r {
                Some(d) => d.wf() && d == (Date { year, month, day }),
                None => !(Date { year, month, day }).wf(),
            },
    {
        let d = Date { year, month, day };
        if d.is_valid() {
            Some(d)
        } else {
            None
        }
    }
}

pub open spec fn digit_byte(x: int) -> u8 {
    (('0' as u8) + x) as u8
}

/// The ISO-8601 text of a date: `YYYY-MM-DD`.
pub open spec fn date_bytes(d: Date) -> Seq<u8> {
    let y = d.year as int;
    let m = d.month as int;
    let dd = d.day as int;
    seq![
        digit_byte(y / 1000),
        digit_byte(y / 100 % 10),
        digit_byte(y / 10 % 10),
        digit_byte(y % 10),
        ('-' as u8),
        digit_byte(m / 10),
        digit_byte(m % 10),
        ('-' as u8),
        digit_byte(dd / 10),
        digit_byte(dd % 10),
    ]
}

/// Appends the `YYYY-MM-DD` text of `d`.
pub fn push_date(out: &mut Vec<u8>, d: Date)
    requires
        d.wf(),
    ensures
        final(out)@ == old(out)@ + date_bytes(d),
{
    let y = d.year;
    out.push(('0' as u8) + (y / 1000) as u8);
    out.push(('0' as u8) + (y / 100 % 10) as u8);
    out.push(('0' as u8) + (y / 10 % 10) as u8);
    out.push(('0' as u8) + (y % 10) as u8);
    out.push('-' as u8);
    out.push(('0' as u8) + d.month / 10);
    out.push(('0' as u8) + d.month % 10);
    out.push('-' as u8);
    out.push(('0' as u8) + d.day / 10);
    out.push(('0' as u8) + d.day % 10);
    proof {
        assert(out@ =~= old(out)@ + date_bytes(d));
    }
}

/// Reads a `YYYY-MM-DD` date at `i`: the date and the position after its last
/// byte. Fails unless the ten bytes have that shape and name a valid calendar
/// day.
pub open spec fn parse_date(s: Seq<u8>, i: int) -> Option<(Date, int)> {
    if 0 <= i && i + 10 <= s.len() && is_digit(s[i]) && is_digit(s[i + 1]) && is_digit(s[i + 2])
        && is_digit(s[i + 3]) && s[i + 4] == ('-' as u8) && is_digit(s[i + 5]) && is_digit(
        s[i + 6],
    ) && s[i + 7] == ('-' as u8) && is_digit(s[i + 8]) && is_digit(s[i + 9]) {
        let y = (s[i] - ('0' as u8)) * 1000 + (s[i + 1] - ('0' as u8)) * 100 + (s[i + 2] - (
        '0' as u8)) * 10 + (s[i + 3] - ('0' as u8));
        let m = (s[i + 5] - ('0' as u8)) * 10 + (s[i + 6] - ('0' as u8));
        let dd = (s[i + 8] - ('0' as u8)) * 10 + (s[i + 9] - ('0' as u8));
        let d = Date { year: y as u16, month: m as u8, day: dd as u8 };
        if d.wf() {
            Some((d, i + 10))
        } else {
            None
        }
    } else {
        None
    }
}

pub fn parse_date_at(s: &Vec<u8>, i: usize) -> (r: Option<(Date, usize)>)
    requires
        i <= s@.len(),
    ensures
        match r {
            Some(p) => parse_date(s@, i as int) == Some((p.0, p.1 as int)) && i < p.1 <= s@.len()
                && p.0.wf(),
            None => parse_date(s@, i as int) is None,
        },
{
    if s.len() - i < 10 {
        return None;
    }
    let b0 = s[i];
    let b1 = s[i + 1];
    let b2 = s[i + 2];
    let b3 = s[i + 3];
    let b5 = s[i + 5];
    let b6 = s[i + 6];
    let b8 = s[i + 8];
    let b9 = s[i + 9];
    let zero = '0' as u8;
    let nine = '9' as u8;
    if zero <= b0 && b0 <= nine && zero <= b1 && b1 <= nine && zero <= b2 && b2 <= nine && zero
        <= b3 && b3 <= nine && s[i + 4] == ('-' as u8) && zero <= b5 && b5 <= nine && zero <= b6
        && b6 <= nine && s[i + 7] == ('-' as u8) && zero <= b8 && b8 <= nine && zero <= b9 && b9
        <= nine {
        let y: u16 = ((b0 - zero) as u16) * 1000 + ((b1 - zero) as u16) * 100 + ((b2 - zero)
            as u16) * 10 + ((b3 - zero) as u16);
        let m: u8 = (b5 - zero) * 10 + (b6 - zero);
        let dd: u8 = (b8 - zero) * 10 + (b9 - zero);
        match Date::new(y, m, dd) {
            Some(d) => Some((d, i + 10)),
            None => None,
        }
    } else {
        None
    }
}

/// Parsing a rendered date reads the same date back.
pub proof fn lemma_parse_date_bytes(s: Seq<u8>, i: int, d: Date)
    requires
        d.wf(),
        0 <= i,
        i + 10 <= s.len(),
        s.subrange(i, i + 10) == date_bytes(d),
    ensures
        parse_date(s, i) == Some((d, i + 10)),
{
    let y = d.year as int;
    let m = d.month as int;
    let dd = d.day as int;
    assert forall|k: int| 0 <= k < 10 implies s[i + k] == date_bytes(d)[k] by {
        assert(s.subrange(i, i + 10)[k] == s[i + k]);
    }
    vstd::arithmetic::div_mod::lemma_fundamental_div_mod(y, 10);
    vstd::arithmetic::div_mod::lemma_fundamental_div_mod(y / 10, 10);
    vstd::arithmetic::div_mod::lemma_fundamental_div_mod(y / 100, 10);
    vstd::arithmetic::div_mod::lemma_div_denominator(y, 10, 10);
    vstd::arithmetic::div_mod::lemma_div_denominator(y, 100, 10);
    vstd::arithmetic::div_mod::lemma_fundamental_div_mod(m, 10);
    vstd::arithmetic::div_mod::lemma_fundamental_div_mod(dd, 10);
    assert(y / 1000 <= 9) by {
        assert(y <= 9999);
    }
    assert((s[i] - ('0' as u8)) * 1000 + (s[i + 1] - ('0' as u8)) * 100 + (s[i + 2] - ('0' as u8))
        * 10 + (s[i + 3] - ('0' as u8)) == y);
    assert((s[i + 5] - ('0' as u8)) * 10 + (s[i + 6] - ('0' as u8)) == m);
    assert((s[i + 8] - ('0' as u8)) * 10 + (s[i + 9] - ('0' as u8)) == dd);
}

} // verus!
