//! Calendar dates and their `YYYY-MM-DD` text.
use vstd::prelude::*;
use crate::text::{decimal_padded, digit_char, push_decimal};
use chrono::Datelike;

verus! {

pub open spec fn is_leap_year(y: int) -> bool {
    (y % 4 == 0 && y % 100 != 0) || y % 400 == 0
}

pub open spec fn days_in_month(y: int, m: int) -> int {
    if m == 2 {
        if is_leap_year(y) {
            29
        } else {
            28
        }
    } else if m == 4 || m == 6 || m == 9 || m == 11 {
        30
    } else {
        31
    }
}

/// The day exists in the proleptic Gregorian calendar.
pub open spec fn is_calendar_date(y: int, m: int, d: int) -> bool {
    1 <= m <= 12 && 1 <= d <= days_in_month(y, m)
}

/// A calendar date with no time of day.
#[derive(Clone, Copy, Debug, PartialEq, Eq, Structural)]
pub struct Date {
    pub year: i32,
    pub month: u32,
    pub day: u32,
}

/// The reasons a due date is refused.
#[derive(Clone, Copy, Debug, PartialEq, Eq, Structural)]
pub enum DateError {
    /// The text is not a real date written as `YYYY-MM-DD`.
    InvalidDateFormat,
    /// The date is not strictly after today.
    InvalidDate,
}

/// Relies on chrono's `Local::now` and `DateTime::date_naive`: the local
/// calendar date now, which is always a real date.
#[verifier::external_body]
fn local_today() -> (r: (i32, u32, u32))
    ensures
        is_calendar_date(r.0 as int, r.1 as int, r.2 as int),
{
    let d = chrono::Local::now().date_naive();
    (d.year(), d.month(), d.day())
}

/// Relies on chrono's `NaiveDate::from_ymd_opt`: `Some` exactly for a day
/// that exists, and every year from 0 to 9999 is in chrono's range.
#[verifier::external_body]
fn calendar_has(year: i32, month: u32, day: u32) -> (r: bool)
    requires
        0 <= year <= 9999,
    ensures
        r == is_calendar_date(year as int, month as int, day as int),
{
    chrono::NaiveDate::from_ymd_opt(year, month, day).is_some()
}

/// The year as chrono writes it: four digits from 0 to 9999, otherwise an
/// explicit sign and at least four digits.
pub open spec fn year_text(y: int) -> Seq<char> {
    if 0 <= y <= 9999 {
        decimal_padded(y as nat, 4)
    } else if y < 0 {
        seq!['-'] + decimal_padded((-y) as nat, 4)
    } else {
        seq!['+'] + decimal_padded(y as nat, 4)
    }
}

pub open spec fn is_digit(c: char) -> bool {
    '0' <= c <= '9'
}

pub open spec fn digit_value(c: char) -> int {
    c as int - '0' as int
}

/// The value of the decimal digits `s[lo..hi]`.
pub open spec fn digits_value(s: Seq<char>, lo: int, hi: int) -> int
    decreases hi - lo,
{
    if hi <= lo {
        0
    } else {
        digits_value(s, lo, hi - 1) * 10 + digit_value(s[hi - 1])
    }
}

/// The text has the shape `YYYY-MM-DD`: ten characters, digits but for the
/// two dashes.
pub open spec fn is_iso_shape(s: Seq<char>) -> bool {
    &&& s.len() == 10
    &&& s[4] == '-'
    &&& s[7] == '-'
    &&& forall|i: int| 0 <= i < 10 && i != 4 && i != 7 ==> is_digit(#[trigger] s[i])
}

/// What a due-date text stands for.
pub open spec fn parse_spec(s: Seq<char>) -> Result<Date, DateError> {
    if !is_iso_shape(s) {
        Err(DateError::InvalidDateFormat)
    } else {
        let y = digits_value(s, 0, 4);
        let m = digits_value(s, 5, 7);
        let d = digits_value(s, 8, 10);
        if is_calendar_date(y, m, d) {
            Ok(Date { year: y as i32, month: m as u32, day: d as u32 })
        } else {
            Err(DateError::InvalidDateFormat)
        }
    }
}

pub open spec fn pow10(k: nat) -> int
    decreases k,
{
    if k == 0 {
        1
    } else {
        10 * pow10((k - 1) as nat)
    }
}

/// Reads the decimal digits `s[lo..hi]`.
fn read_digits(s: &str, lo: usize, hi: usize) -> (r: u32)
    requires
        lo <= hi <= s@.len(),
        hi - lo <= 4,
        forall|k: int| lo <= k < hi ==> is_digit(#[trigger] s@[k]),
    ensures
        r as int == digits_value(s@, lo as int, hi as int),
        r < 10000,
{
    proof {
        reveal_with_fuel(pow10, 5);
    }
    let mut v: u32 = 0;
    let mut i: usize = lo;
    while i < hi
        invariant
            lo <= i <= hi <= s@.len(),
            hi - lo <= 4,
            forall|k: int| lo <= k < hi ==> is_digit(#[trigger] s@[k]),
            v as int == digits_value(s@, lo as int, i as int),
            (v as int) < pow10((i - lo) as nat),
            pow10((hi - lo) as nat) <= 10000,
        decreases hi - i,
    {
        let c = s.get_char(i);
        assert(is_digit(s@[i as int]));
        let d: u32 = (c as u32) - ('0' as u32);
        proof {
            assert(pow10((i + 1 - lo) as nat) == 10 * pow10((i - lo) as nat));
            assert(pow10((i + 1 - lo) as nat) <= pow10((hi - lo) as nat)) by {
                lemma_pow10_mono((i + 1 - lo) as nat, (hi - lo) as nat);
            }
        }
        v = v * 10 + d;
        i = i + 1;
    }
    v
}

proof fn lemma_pow10_mono(a: nat, b: nat)
    requires
        a <= b,
    ensures
        pow10(a) <= pow10(b),
        pow10(a) >= 1,
    decreases b,
{
    if b > a {
        lemma_pow10_mono(a, (b - 1) as nat);
    } else if a > 0 {
        lemma_pow10_mono((a - 1) as nat, (a - 1) as nat);
    }
}

/// Reads a due date written as `YYYY-MM-DD`. Text of any other shape, or
/// naming a day that does not exist, is refused as a bad format.
pub fn parse_date(s: &str) -> (r: Result<Date, DateError>)
    ensures
        r == parse_spec(s@),
        !is_iso_shape(s@) ==> r == Err::<Date, DateError>(DateError::InvalidDateFormat),
        r is Ok ==> r->Ok_0.wf(),
{
    let n = s.unicode_len();
    if n != 10 {
        return Err(DateError::InvalidDateFormat);
    }
    let mut i: usize = 0;
    while i < 10
        invariant
            s@.len() == 10,
            i <= 10,
            forall|k: int| 0 <= k < i && k != 4 && k != 7 ==> is_digit(#[trigger] s@[k]),
        decreases 10 - i,
    {
        let c = s.get_char(i);
        if i != 4 && i != 7 && !('0' <= c && c <= '9') {
            return Err(DateError::InvalidDateFormat);
        }
        i = i + 1;
    }
    if s.get_char(4) != '-' || s.get_char(7) != '-' {
        return Err(DateError::InvalidDateFormat);
    }
    assert(is_iso_shape(s@));
    let y = read_digits(s, 0, 4);
    let m = read_digits(s, 5, 7);
    let d = read_digits(s, 8, 10);
    if calendar_has(y as i32, m, d) {
        Ok(Date { year: y as i32, month: m, day: d })
    } else {
        Err(DateError::InvalidDateFormat)
    }
}

proof fn lemma_digit_char(n: nat)
    requires
        n < 10,
    ensures
        is_digit(digit_char(n)),
        digit_value(digit_char(n)) == n,
{
}

/// `digits_value` reads only the characters in its range.
proof fn lemma_digits_shift(s: Seq<char>, t: Seq<char>, off: int, lo: int, hi: int)
    requires
        0 <= lo <= hi <= t.len(),
        0 <= off,
        hi + off <= s.len(),
        forall|i: int| lo <= i < hi ==> s[i + off] == t[i],
    ensures
        digits_value(s, lo + off, hi + off) == digits_value(t, lo, hi),
    decreases hi - lo,
{
    if lo < hi {
        lemma_digits_shift(s, t, off, lo, hi - 1);
        assert(s[hi - 1 + off] == t[hi - 1]);
    }
}

proof fn lemma_decimal_padded(n: nat, w: nat)
    requires
        1 <= w,
        n < pow10(w),
    ensures
        decimal_padded(n, w).len() == w,
        forall|i: int| 0 <= i < w ==> is_digit(#[trigger] decimal_padded(n, w)[i]),
        digits_value(decimal_padded(n, w), 0, w as int) == n,
    decreases w,
{
    let s = decimal_padded(n, w);
    lemma_digit_char(n % 10);
    if w == 1 {
        assert(pow10(1) == 10 * pow10(0));
        assert(digits_value(s, 0, 0) == 0);
    } else {
        let w1 = (w - 1) as nat;
        assert(n / 10 < pow10(w1));
        lemma_decimal_padded(n / 10, w1);
        let t = decimal_padded(n / 10, w1);
        assert(s == t.push(digit_char(n % 10)));
        lemma_digits_shift(s, t, 0, 0, w1 as int);
        vstd::arithmetic::div_mod::lemma_fundamental_div_mod(n as int, 10);
        assert forall|i: int| 0 <= i < w implies is_digit(#[trigger] s[i]) by {
            if i < w1 {
                assert(s[i] == t[i]);
            }
        }
    }
}

/// A real date with a four-digit year, written out as `YYYY-MM-DD`, reads
/// back as the same date.
pub proof fn lemma_date_round_trip(d: Date)
    requires
        d.wf(),
        0 <= d.year <= 9999,
    ensures
        is_iso_shape(d.iso_text()),
        parse_spec(d.iso_text()) == Ok::<Date, DateError>(d),
{
    reveal_with_fuel(pow10, 5);
    let y = decimal_padded(d.year as nat, 4);
    let m = decimal_padded(d.month as nat, 2);
    let dd = decimal_padded(d.day as nat, 2);
    lemma_decimal_padded(d.year as nat, 4);
    lemma_decimal_padded(d.month as nat, 2);
    lemma_decimal_padded(d.day as nat, 2);
    let s = d.iso_text();
    assert(s =~= y + seq!['-'] + m + seq!['-'] + dd);
    assert forall|i: int| 0 <= i < 10 && i != 4 && i != 7 implies is_digit(#[trigger] s[i]) by {
        if i < 4 {
            assert(s[i] == y[i]);
        } else if i < 7 {
            assert(s[i] == m[i - 5]);
        } else {
            assert(s[i] == dd[i - 8]);
        }
    }
    lemma_digits_shift(s, y, 0, 0, 4);
    lemma_digits_shift(s, m, 5, 0, 2);
    lemma_digits_shift(s, dd, 8, 0, 2);
}

/// Text that is not of the shape `YYYY-MM-DD` is refused as a bad format.
pub proof fn lemma_bad_shape_refused(s: Seq<char>)
    requires
        !is_iso_shape(s),
    ensures
        parse_spec(s) == Err::<Date, DateError>(DateError::InvalidDateFormat),
{
}

impl Date {
    /// The date exists in the calendar.
    pub open spec fn wf(self) -> bool {
        is_calendar_date(self.year as int, self.month as int, self.day as int)
    }

    /// This date comes strictly before `other`.
    pub open spec fn precedes(self, other: Date) -> bool {
        ||| self.year < other.year
        ||| self.year == other.year && self.month < other.month
        ||| self.year == other.year && self.month == other.month && self.day < other.day
    }

    /// The date as `YYYY-MM-DD`.
    pub open spec fn iso_text(self) -> Seq<char> {
        year_text(self.year as int) + seq!['-'] + decimal_padded(self.month as nat, 2) + seq!['-']
            + decimal_padded(self.day as nat, 2)
    }

    /// Today's date on the local clock.
    pub fn today() -> (r: Date)
        ensures
            r.wf(),
    {
        let (year, month, day) = local_today();
        Date { year, month, day }
    }

    pub fn is_before(&self, other: &Date) -> (r: bool)
        ensures
            r == self.precedes(*other),
    {
        self.year < other.year || (self.year == other.year && self.month < other.month) || (
        self.year == other.year && self.month == other.month && self.day < other.day)
    }

    /// Writes the date as `YYYY-MM-DD` (years outside 0..=9999 carry a sign).
    pub fn to_iso_string(&self) -> (r: String)
        ensures
            r@ == self.iso_text(),
    {
        let mut out = String::new();
        if 0 <= self.year && self.year <= 9999 {
            push_decimal(&mut out, self.year as u64, 4);
        } else if self.year < 0 {
            out.append("-");
            push_decimal(&mut out, (-(self.year as i64)) as u64, 4);
        } else {
            out.append("+");
            push_decimal(&mut out, self.year as u64, 4);
        }
        out.append("-");
        push_decimal(&mut out, self.month as u64, 2);
        out.append("-");
        push_decimal(&mut out, self.day as u64, 2);
        proof {
            reveal_strlit("-");
            reveal_strlit("+");
            assert(out@ =~= self.iso_text());
        }
        out
    }
}

} // verus!
