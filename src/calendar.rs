use vstd::prelude::*;
use vstd::string::*;
use chrono::Datelike;

verus! {

/// The largest year that the textual forms of this library carry (four digits).
pub const MAX_TEXT_YEAR: u32 = 9999;

/// A proleptic Gregorian calendar date.
#[derive(Clone, Copy, Debug, PartialEq, Eq, Structural)]
pub struct CalendarDate {
    pub year: u32,
    pub month: u32,
    pub day: u32,
}

pub open spec fn is_leap_year(y: int) -> bool {
    (y % 4 == 0 && y % 100 != 0) || y % 400 == 0
}

pub open spec fn days_in_month(y: int, m: int) -> int {
    if m == 2 {
        if is_leap_year(y) { 29 } else { 28 }
    } else if m == 4 || m == 6 || m == 9 || m == 11 {
        30
    } else {
        31
    }
}

pub open spec fn days_in_year(y: int) -> int {
    if is_leap_year(y) { 366 } else { 365 }
}

/// The day exists in the calendar.
pub open spec fn is_valid_ymd(y: int, m: int, d: int) -> bool {
    1 <= m <= 12 && 1 <= d <= days_in_month(y, m)
}

impl CalendarDate {
    pub open spec fn wf(self) -> bool {
        is_valid_ymd(self.year as int, self.month as int, self.day as int)
    }

    /// Lexicographic order on (year, month, day).
    pub open spec fn spec_le(self, other: CalendarDate) -> bool {
        self.year < other.year || (self.year == other.year && (self.month < other.month || (
        self.month == other.month && self.day <= other.day)))
    }
}

/// The day after `d`.
pub open spec fn next_date(d: CalendarDate) -> CalendarDate {
    if (d.day as int) < days_in_month(d.year as int, d.month as int) {
        CalendarDate { year: d.year, month: d.month, day: (d.day + 1) as u32 }
    } else if d.month < 12 {
        CalendarDate { year: d.year, month: (d.month + 1) as u32, day: 1 }
    } else {
        CalendarDate { year: (d.year + 1) as u32, month: 1, day: 1 }
    }
}

/// The date `k` days after `d`.
pub open spec fn date_after(d: CalendarDate, k: nat) -> CalendarDate
    decreases k,
{
    if k == 0 {
        d
    } else {
        next_date(date_after(d, (k - 1) as nat))
    }
}

pub open spec fn days_before_year(y: nat) -> nat
    decreases y,
{
    if y == 0 {
        0
    } else {
        days_before_year((y - 1) as nat) + days_in_year(y - 1) as nat
    }
}

pub open spec fn days_before_month(y: int, m: nat) -> nat
    decreases m,
{
    if m <= 1 {
        0
    } else {
        days_before_month(y, (m - 1) as nat) + days_in_month(y, m - 1) as nat
    }
}

/// Number of days from 0000-01-01 to `d`.
pub open spec fn day_ordinal(d: CalendarDate) -> int {
    days_before_year(d.year as nat) + days_before_month(d.year as int, d.month as nat) + d.day - 1
}

/// Number of calendar days from `from` to `to`, both included.
pub open spec fn days_inclusive(from: CalendarDate, to: CalendarDate) -> int {
    day_ordinal(to) - day_ordinal(from) + 1
}

pub proof fn lemma_days_before_month_step(y: int, m: nat)
    requires
        1 <= m <= 12,
    ensures
        days_before_month(y, m + 1) == days_before_month(y, m) + days_in_month(y, m as int),
{
}

pub proof fn lemma_days_before_month_mono(y: int, a: nat, b: nat)
    requires
        1 <= a <= b <= 13,
    ensures
        days_before_month(y, a) + (if a < b { days_in_month(y, a as int) } else { 0 }) <= days_before_month(y, b),
    decreases b - a,
{
    if a < b {
        if a + 1 < b {
            lemma_days_before_month_mono(y, a + 1, b);
        }
        lemma_days_before_month_step(y, a);
    }
}

pub proof fn lemma_year_length(y: int)
    ensures
        days_before_month(y, 13) == days_in_year(y),
{
    reveal_with_fuel(days_before_month, 13);
}

pub proof fn lemma_days_before_year_mono(a: nat, b: nat)
    requires
        a < b,
    ensures
        days_before_year(a) + days_in_year(a as int) <= days_before_year(b),
    decreases b - a,
{
    if a + 1 < b {
        lemma_days_before_year_mono(a + 1, b);
    }
}

/// The day after a valid date is valid and one ordinal further on.
pub proof fn lemma_next_date(d: CalendarDate)
    requires
        d.wf(),
        d.year < u32::MAX,
    ensures
        next_date(d).wf(),
        day_ordinal(next_date(d)) == day_ordinal(d) + 1,
{
    let y = d.year as int;
    if (d.day as int) < days_in_month(y, d.month as int) {
    } else if d.month < 12 {
        lemma_days_before_month_step(y, d.month as nat);
    } else {
        lemma_days_before_month_step(y, 12);
        lemma_year_length(y);
        assert(days_before_year((d.year + 1) as nat) == days_before_year(d.year as nat) + days_in_year(y));
    }
}

/// Lexicographic order of valid dates is the order of their ordinals.
pub proof fn lemma_order_by_ordinal(a: CalendarDate, b: CalendarDate)
    requires
        a.wf(),
        b.wf(),
    ensures
        a.spec_le(b) <==> day_ordinal(a) <= day_ordinal(b),
        a == b <==> day_ordinal(a) == day_ordinal(b),
{
    assert forall|x: CalendarDate, z: CalendarDate|
        x.wf() && z.wf() && !x.spec_le(z) implies day_ordinal(z) < day_ordinal(x) by {
        lemma_strictly_before(z, x);
    }
    if a != b {
        if a.spec_le(b) {
            lemma_strictly_before(a, b);
        } else {
            lemma_strictly_before(b, a);
        }
    }
}

proof fn lemma_strictly_before(a: CalendarDate, b: CalendarDate)
    requires
        a.wf(),
        b.wf(),
        a.spec_le(b),
        a != b,
    ensures
        day_ordinal(a) < day_ordinal(b),
{
    let ya = a.year as int;
    if a.year < b.year {
        lemma_days_before_month_mono(ya, a.month as nat, 13);
        lemma_year_length(ya);
        lemma_days_before_year_mono(a.year as nat, b.year as nat);
    } else if a.month < b.month {
        lemma_days_before_month_mono(ya, a.month as nat, b.month as nat);
    }
}

/// Fixed-width decimal text of `n`, most significant digit first.
pub open spec fn decimal_text(n: nat, width: nat) -> Seq<char>
    decreases width,
{
    if width == 0 {
        Seq::empty()
    } else {
        decimal_text(n / 10, (width - 1) as nat).push(digit_char((n % 10) as int))
    }
}

pub open spec fn digit_char(v: int) -> char {
    seq!['0', '1', '2', '3', '4', '5', '6', '7', '8', '9'][v]
}

pub open spec fn is_digit(c: char) -> bool {
    '0' <= c <= '9'
}

/// Value of the decimal digits `s[lo..hi]`.
pub open spec fn digits_value(s: Seq<char>, lo: int, hi: int) -> nat
    decreases hi - lo,
{
    if hi <= lo {
        0
    } else {
        digits_value(s, lo, hi - 1) * 10 + (s[hi - 1] as nat - '0' as nat) as nat
    }
}

pub open spec fn all_digits(s: Seq<char>, lo: int, hi: int) -> bool {
    forall|i: int| lo <= i < hi ==> is_digit(#[trigger] s[i])
}

/// `YYYYMMDD`, the form in which a date goes to the remote service.
pub open spec fn compact_text(d: CalendarDate) -> Seq<char> {
    decimal_text(d.year as nat, 4) + decimal_text(d.month as nat, 2) + decimal_text(d.day as nat, 2)
}

/// Text in the shape `YYYY-MM-DD`, digits where digits stand.
pub open spec fn has_iso_date_shape(s: Seq<char>) -> bool {
    s.len() == 10 && all_digits(s, 0, 4) && s[4] == '-' && all_digits(s, 5, 7) && s[7] == '-'
        && all_digits(s, 8, 10)
}

/// The date that the digits of a `YYYY-MM-DD` text name.
pub open spec fn iso_date_fields(s: Seq<char>) -> CalendarDate {
    CalendarDate {
        year: digits_value(s, 0, 4) as u32,
        month: digits_value(s, 5, 7) as u32,
        day: digits_value(s, 8, 10) as u32,
    }
}

/// What `parse_iso_date` accepts.
pub open spec fn iso_date_of(s: Seq<char>) -> Option<CalendarDate> {
    if has_iso_date_shape(s) && iso_date_fields(s).wf() {
        Some(iso_date_fields(s))
    } else {
        None
    }
}

pub proof fn lemma_digits_value_bound(s: Seq<char>, lo: int, hi: int)
    requires
        lo <= hi,
        all_digits(s, lo, hi),
    ensures
        digits_value(s, lo, hi) < pow10((hi - lo) as nat),
    decreases hi - lo,
{
    if lo < hi {
        lemma_digits_value_bound(s, lo, hi - 1);
        assert(is_digit(s[hi - 1]));
    }
}

pub open spec fn pow10(k: nat) -> nat
    decreases k,
{
    if k == 0 {
        1
    } else {
        10 * pow10((k - 1) as nat)
    }
}

/// Value of the digit `c`.
pub fn digit_value(c: char) -> (r: Option<u32>)
    ensures
        r == (if is_digit(c) { Some((c as nat - '0' as nat) as u32) } else { None::<u32> }),
{
    if '0' <= c && c <= '9' {
        Some((c as u32) - ('0' as u32))
    } else {
        None
    }
}

/// Reads the digits `s[lo..hi]` as a decimal number, if all are digits.
pub fn read_digits(s: &str, lo: usize, hi: usize) -> (r: Option<u32>)
    requires
        lo <= hi <= s@.len(),
        hi - lo <= 4,
    ensures
        r == (if all_digits(s@, lo as int, hi as int) {
            Some(digits_value(s@, lo as int, hi as int) as u32)
        } else {
            None::<u32>
        }),
{
    let mut v: u32 = 0;
    let mut i: usize = lo;
    while i < hi
        invariant
            lo <= i <= hi <= s@.len(),
            hi - lo <= 4,
            all_digits(s@, lo as int, i as int),
            v == digits_value(s@, lo as int, i as int),
            v < pow10((i - lo) as nat),
        decreases hi - i,
    {
        let c = s.get_char(i);
        match digit_value(c) {
            Some(x) => {
                assert(pow10((i - lo) as nat) <= 1000) by {
                    reveal_with_fuel(pow10, 4);
                }
                v = v * 10 + x;
                i = i + 1;
                assert(all_digits(s@, lo as int, i as int)) by {
                    assert forall|j: int| lo <= j < i implies is_digit(#[trigger] s@[j]) by {
                        if j < i - 1 {
                        }
                    }
                }
            },
            None => {
                assert(!all_digits(s@, lo as int, hi as int));
                return None;
            },
        }
    }
    Some(v)
}

/// Relies on chrono's `NaiveDate::from_ymd_opt`: `Some` exactly for a calendar
/// day that exists (the years of four digits are all within its range).
#[verifier::external_body]
fn calendar_day_exists(year: u32, month: u32, day: u32) -> (r: bool)
    requires
        year <= MAX_TEXT_YEAR,
    ensures
        r == is_valid_ymd(year as int, month as int, day as int),
{
    chrono::NaiveDate::from_ymd_opt(year as i32, month, day).is_some()
}

/// Reads a `YYYY-MM-DD` text as a calendar date.
pub fn parse_iso_date(text: &str) -> (r: Option<CalendarDate>)
    ensures
        r == iso_date_of(text@),
        r matches Some(d) ==> d.year <= MAX_TEXT_YEAR,
{
    let n = text.unicode_len();
    if n != 10 {
        return None;
    }
    if text.get_char(4) != '-' || text.get_char(7) != '-' {
        return None;
    }
    let y = read_digits(text, 0, 4);
    let m = read_digits(text, 5, 7);
    let d = read_digits(text, 8, 10);
    match (y, m, d) {
        (Some(y), Some(m), Some(d)) => {
            proof {
                lemma_digits_value_bound(text@, 0, 4);
                reveal_with_fuel(pow10, 5);
                assert(y < 10000);
            }
            if calendar_day_exists(y, m, d) {
                Some(CalendarDate { year: y, month: m, day: d })
            } else {
                None
            }
        },
        _ => None,
    }
}

impl CalendarDate {
    /// `self` falls on or before `other`.
    pub fn le(&self, other: &CalendarDate) -> (r: bool)
        ensures
            r == self.spec_le(*other),
    {
        self.year < other.year || (self.year == other.year && (self.month < other.month || (
        self.month == other.month && self.day <= other.day)))
    }
}

/// Relies on chrono's `NaiveDate::succ_opt`: the following calendar day, which
/// exists for every date of a four-digit year.
#[verifier::external_body]
fn following_day(d: CalendarDate) -> (r: Option<CalendarDate>)
    requires
        d.wf(),
        d.year <= MAX_TEXT_YEAR,
    ensures
        r == Some(next_date(d)),
{
    chrono::NaiveDate::from_ymd_opt(d.year as i32, d.month, d.day).and_then(|x| x.succ_opt()).map(
        |x| CalendarDate { year: x.year() as u32, month: x.month(), day: x.day() },
    )
}

/// Relies on chrono's `NaiveDate::format` with `%Y%m%d`: the year padded to
/// four digits, then month and day padded to two.
#[verifier::external_body]
fn format_compact(d: CalendarDate) -> (r: Option<String>)
    requires
        d.wf(),
        d.year <= MAX_TEXT_YEAR,
    ensures
        r.is_some() && r.unwrap()@ == compact_text(d),
{
    chrono::NaiveDate::from_ymd_opt(d.year as i32, d.month, d.day).map(
        |x| x.format("%Y%m%d").to_string(),
    )
}

impl CalendarDate {
    /// The next calendar day.
    pub fn succ(&self) -> (r: CalendarDate)
        requires
            self.wf(),
            self.year <= MAX_TEXT_YEAR,
        ensures
            r == next_date(*self),
            r.wf(),
            day_ordinal(r) == day_ordinal(*self) + 1,
    {
        proof {
            lemma_next_date(*self);
        }
        match following_day(*self) {
            Some(n) => n,
            None => *self,
        }
    }

    /// The date as `YYYYMMDD`.
    pub fn compact(&self) -> (r: String)
        requires
            self.wf(),
            self.year <= MAX_TEXT_YEAR,
        ensures
            r@ == compact_text(*self),
    {
        match format_compact(*self) {
            Some(s) => s,
            None => String::new(),
        }
    }
}

} // verus!
