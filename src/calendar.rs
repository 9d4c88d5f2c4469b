//! Calendar dates in the proleptic Gregorian calendar, their order, their
//! successor and predecessor, their day number, and their `YYYY-MM-DD` text.

use vstd::prelude::*;
use crate::errors::StoreError;
use crate::text::{decimal, digit_value, padded, push_padded, chars_of, string_of, push_str};

verus! {

pub const MIN_YEAR: i32 = -10399;
/// The earliest year that the `time` crate gives: clock readings and parsed
/// timestamps lie at or after it, 400 years (146097 days) after `MIN_YEAR`.
pub const CLOCK_MIN_YEAR: i32 = -9999;
pub const MAX_YEAR: i32 = 9999;

/// A calendar date (UTC day).
#[derive(Debug, Clone, Copy, PartialEq, Eq, Structural)]
pub struct CivilDate {
    pub year: i32,
    pub month: u8,
    pub day: u8,
}

pub open spec fn is_leap_year(y: int) -> bool {
    (y % 4 == 0 && y % 100 != 0) || y % 400 == 0
}

pub open spec fn days_in_month(y: int, m: int) -> int {
    if m == 2 {
        if is_leap_year(y) { 29 } else { 28 }
    } else if m == 4 || m == 6 || m == 9 || m == 11 {
        30
    } else {
        31
    }
}

/// The earliest and the latest date that the library handles.
pub open spec fn min_date() -> CivilDate {
    CivilDate { year: MIN_YEAR, month: 1, day: 1 }
}

pub open spec fn max_date() -> CivilDate {
    CivilDate { year: MAX_YEAR, month: 12, day: 31 }
}

impl CivilDate {
    /// A real calendar day within the supported years.
    pub open spec fn wf(self) -> bool {
        &&& MIN_YEAR <= self.year <= MAX_YEAR
        &&& 1 <= self.month <= 12
        &&& 1 <= self.day <= days_in_month(self.year as int, self.month as int)
    }

    /// A key that orders dates as the calendar does.
    pub open spec fn ordinal(self) -> int {
        self.year * 372 + (self.month - 1) * 31 + (self.day - 1)
    }

    /// Calendar order: `self` is on or before `o`.
    pub open spec fn le(self, o: CivilDate) -> bool {
        self.ordinal() <= o.ordinal()
    }

    pub open spec fn lt(self, o: CivilDate) -> bool {
        self.ordinal() < o.ordinal()
    }
}

/// The day after `d`.
pub open spec fn next_date(d: CivilDate) -> CivilDate {
    if (d.day as int) < days_in_month(d.year as int, d.month as int) {
        CivilDate { day: (d.day + 1) as u8, ..d }
    } else if d.month < 12 {
        CivilDate { year: d.year, month: (d.month + 1) as u8, day: 1 }
    } else {
        CivilDate { year: (d.year + 1) as i32, month: 1, day: 1 }
    }
}

/// The day before `d`.
pub open spec fn prev_date(d: CivilDate) -> CivilDate {
    if d.day > 1 {
        CivilDate { day: (d.day - 1) as u8, ..d }
    } else if d.month > 1 {
        CivilDate {
            year: d.year,
            month: (d.month - 1) as u8,
            day: days_in_month(d.year as int, d.month - 1) as u8,
        }
    } else {
        CivilDate { year: (d.year - 1) as i32, month: 12, day: 31 }
    }
}

/// Days from 1970-01-01 to the given date (negative before it).
pub open spec fn days_from_civil(y: int, m: int, d: int) -> int {
    let yy = if m <= 2 { y - 1 } else { y };
    let era = (yy + 10400) / 400 - 26;
    let yoe = yy - era * 400;
    let mp = if m > 2 { m - 3 } else { m + 9 };
    let doy = (153 * mp + 2) / 5 + d - 1;
    let doe = yoe * 365 + yoe / 4 - yoe / 100 + doy;
    era * 146097 + doe - 719468
}

pub open spec fn day_number(d: CivilDate) -> int {
    days_from_civil(d.year as int, d.month as int, d.day as int)
}

/// The first second (Unix time) of the UTC day `d`.
pub open spec fn midnight_of(d: CivilDate) -> int {
    day_number(d) * 86400
}

pub proof fn lemma_next_date(d: CivilDate)
    requires
        d.wf(),
        d != max_date(),
    ensures
        next_date(d).wf(),
        d.lt(next_date(d)),
        prev_date(next_date(d)) == d,
{
}

pub proof fn lemma_prev_date(d: CivilDate)
    requires
        d.wf(),
        d != min_date(),
    ensures
        prev_date(d).wf(),
        prev_date(d).lt(d),
        next_date(prev_date(d)) == d,
{
}

/// Between a date and the next there is no other date.
pub proof fn lemma_next_is_least_later(a: CivilDate, c: CivilDate)
    requires
        a.wf(),
        c.wf(),
        a.lt(c),
    ensures
        a != max_date(),
        next_date(a).le(c),
{
}

pub proof fn lemma_le_eq(a: CivilDate, b: CivilDate)
    requires
        a.wf(),
        b.wf(),
        a.le(b),
        b.le(a),
    ensures
        a == b,
{
}

/// Numeric value of a run of decimal digits.
pub open spec fn digits_value(t: Seq<char>) -> int
    decreases t.len(),
{
    if t.len() == 0 {
        0
    } else {
        digits_value(t.drop_last()) * 10 + (t.last() as int - '0' as int)
    }
}

pub open spec fn all_digits(t: Seq<char>) -> bool {
    forall|i: int| 0 <= i < t.len() ==> #[trigger] digit_value(t[i]) is Some
}

/// `YYYY-MM-DD`: ten characters, digits apart from two dashes.
pub open spec fn date_shaped(s: Seq<char>) -> bool {
    &&& s.len() == 10
    &&& s[4] == '-'
    &&& s[7] == '-'
    &&& all_digits(s.subrange(0, 4))
    &&& all_digits(s.subrange(5, 7))
    &&& all_digits(s.subrange(8, 10))
}

/// The date that a `YYYY-MM-DD` text names, if it names one.
pub open spec fn parse_date_spec(s: Seq<char>) -> Option<CivilDate> {
    if !date_shaped(s) {
        None
    } else {
        let y = digits_value(s.subrange(0, 4));
        let m = digits_value(s.subrange(5, 7));
        let d = digits_value(s.subrange(8, 10));
        if 1 <= m <= 12 && 1 <= d <= days_in_month(y, m) {
            Some(CivilDate { year: y as i32, month: m as u8, day: d as u8 })
        } else {
            None
        }
    }
}

/// The year as `{:04}` writes it: four digits, or a sign and three.
pub open spec fn year_text(y: int) -> Seq<char> {
    if y >= 0 { padded(y as nat, 4) } else { seq!['-'] + padded((-y) as nat, 3) }
}

/// `YYYY-MM-DD` text of a date.
pub open spec fn format_date_spec(d: CivilDate) -> Seq<char> {
    year_text(d.year as int) + seq!['-'] + padded(d.month as nat, 2) + seq!['-'] + padded(
        d.day as nat,
        2,
    )
}

pub fn is_leap(y: i32) -> (r: bool)
    ensures
        r == is_leap_year(y as int),
{
    (y % 4 == 0 && y % 100 != 0) || y % 400 == 0
}

pub fn month_length(y: i32, m: u8) -> (r: u8)
    ensures
        r as int == days_in_month(y as int, m as int),
{
    if m == 2 {
        if is_leap(y) { 29 } else { 28 }
    } else if m == 4 || m == 6 || m == 9 || m == 11 {
        30
    } else {
        31
    }
}

impl CivilDate {
    pub fn is_min(&self) -> (r: bool)
        ensures
            r == (*self == min_date()),
    {
        self.year == MIN_YEAR && self.month == 1 && self.day == 1
    }

    pub fn is_max(&self) -> (r: bool)
        ensures
            r == (*self == max_date()),
    {
        self.year == MAX_YEAR && self.month == 12 && self.day == 31
    }

    /// Calendar order.
    pub fn on_or_before(&self, o: &CivilDate) -> (r: bool)
        requires
            self.wf(),
            o.wf(),
        ensures
            r == self.le(*o),
    {
        if self.year != o.year {
            self.year < o.year
        } else if self.month != o.month {
            self.month < o.month
        } else {
            self.day <= o.day
        }
    }

    /// The following day.
    pub fn next_day(&self) -> (r: CivilDate)
        requires
            self.wf(),
            *self != max_date(),
        ensures
            r == next_date(*self),
            r.wf(),
    {
        proof { lemma_next_date(*self); }
        if self.day < month_length(self.year, self.month) {
            CivilDate { year: self.year, month: self.month, day: self.day + 1 }
        } else if self.month < 12 {
            CivilDate { year: self.year, month: self.month + 1, day: 1 }
        } else {
            CivilDate { year: self.year + 1, month: 1, day: 1 }
        }
    }

    /// The preceding day.
    pub fn previous_day(&self) -> (r: CivilDate)
        requires
            self.wf(),
            *self != min_date(),
        ensures
            r == prev_date(*self),
            r.wf(),
    {
        proof { lemma_prev_date(*self); }
        if self.day > 1 {
            CivilDate { year: self.year, month: self.month, day: self.day - 1 }
        } else if self.month > 1 {
            CivilDate {
                year: self.year,
                month: self.month - 1,
                day: month_length(self.year, self.month - 1),
            }
        } else {
            CivilDate { year: self.year - 1, month: 12, day: 31 }
        }
    }

    /// Days since 1970-01-01.
    pub fn day_number(&self) -> (r: i64)
        requires
            self.wf(),
        ensures
            r as int == day_number(*self),
    {
        let y: i64 = self.year as i64;
        let m: i64 = self.month as i64;
        let d: i64 = self.day as i64;
        let yy: i64 = if m <= 2 { y - 1 } else { y };
        let era: i64 = (yy + 10400) / 400 - 26;
        let yoe: i64 = yy - era * 400;
        let mp: i64 = if m > 2 { m - 3 } else { m + 9 };
        let doy: i64 = (153 * mp + 2) / 5 + d - 1;
        let doe: i64 = yoe * 365 + yoe / 4 - yoe / 100 + doy;
        era * 146097 + doe - 719468
    }

    /// Unix time of the first second of this day.
    pub fn midnight(&self) -> (r: i64)
        requires
            self.wf(),
        ensures
            r as int == midnight_of(*self),
    {
        let n = self.day_number();
        proof { lemma_day_number_bounds(*self); }
        n * 86400
    }
}

proof fn lemma_march_first(y: int)
    requires
        MIN_YEAR <= y <= MAX_YEAR,
    ensures
        days_from_civil(y, 3, 1) == days_from_civil(y, 2, days_in_month(y, 2)) + 1,
{
    let yy = y - 1;
    let era = (yy + 10400) / 400 - 26;
    let yoe = yy - era * 400;
    assert(0 <= yoe < 400);
    let era2 = (y + 10400) / 400 - 26;
    let yoe2 = y - era2 * 400;
    assert(0 <= yoe2 < 400);
    assert((153 * 11 + 2) / 5 == 337);
    if yoe < 399 {
        assert(era2 == era);
        assert(yoe2 == yoe + 1);
        assert(y % 4 == (yoe + 1) % 4);
        assert(y % 100 == (yoe + 1) % 100);
        assert(y % 400 == yoe + 1);
        assert((yoe + 1) / 4 - yoe / 4 == if (yoe + 1) % 4 == 0 { 1int } else { 0int });
        assert((yoe + 1) / 100 - yoe / 100 == if (yoe + 1) % 100 == 0 { 1int } else { 0int });
    } else {
        assert(era2 == era + 1);
        assert(yoe2 == 0);
        assert(y % 400 == 0);
    }
}

/// The day after `d` has the next day number.
pub proof fn lemma_day_number_next(d: CivilDate)
    requires
        d.wf(),
        d != max_date(),
    ensures
        day_number(next_date(d)) == day_number(d) + 1,
{
    let y = d.year as int;
    let m = d.month as int;
    if (d.day as int) < days_in_month(y, m) {
    } else if m == 2 {
        lemma_march_first(y);
    } else if m < 12 {
        assert((153 * 0 + 2) / 5 == 0);
        assert((153 * 1 + 2) / 5 == 31);
        assert((153 * 2 + 2) / 5 == 61);
        assert((153 * 3 + 2) / 5 == 92);
        assert((153 * 4 + 2) / 5 == 122);
        assert((153 * 5 + 2) / 5 == 153);
        assert((153 * 6 + 2) / 5 == 184);
        assert((153 * 7 + 2) / 5 == 214);
        assert((153 * 8 + 2) / 5 == 245);
        assert((153 * 9 + 2) / 5 == 275);
        assert((153 * 10 + 2) / 5 == 306);
        assert((153 * 11 + 2) / 5 == 337);
    } else {
        assert((153 * 9 + 2) / 5 == 275);
        assert((153 * 10 + 2) / 5 == 306);
    }
}

/// Day numbers follow calendar order.
pub proof fn lemma_day_number_monotonic(a: CivilDate, b: CivilDate)
    requires
        a.wf(),
        b.wf(),
        a.le(b),
    ensures
        day_number(a) <= day_number(b),
    decreases b.ordinal() - a.ordinal(),
{
    if a != b {
        if b.le(a) {
            lemma_le_eq(a, b);
        }
        lemma_next_is_least_later(a, b);
        lemma_next_date(a);
        lemma_day_number_next(a);
        lemma_day_number_monotonic(next_date(a), b);
    }
}

pub proof fn lemma_day_number_bounds(d: CivilDate)
    requires
        d.wf(),
    ensures
        -5_000_000 <= day_number(d) <= 5_000_000,
{
    let m = d.month as int;
    let yy = if m <= 2 { d.year - 1 } else { d.year as int };
    let era = (yy + 10400) / 400 - 26;
    assert(0 <= (yy + 10400) / 400 <= 51);
    let yoe = yy - era * 400;
    assert(0 <= yoe < 400);
    let mp = if m > 2 { m - 3 } else { m + 9 };
    let doy = (153 * mp + 2) / 5 + d.day - 1;
    assert(0 <= doy <= 400);
    let doe = yoe * 365 + yoe / 4 - yoe / 100 + doy;
    assert(0 <= yoe * 365 <= 146000) by (nonlinear_arith)
        requires 0 <= yoe < 400;
    assert(-26 * 146097 <= era * 146097 <= 25 * 146097) by (nonlinear_arith)
        requires -26 <= era <= 25;
}

fn digits_at(cs: &Vec<char>, from: usize, to: usize) -> (r: u32)
    requires
        from <= to <= cs.len(),
        to - from <= 4,
        all_digits(cs@.subrange(from as int, to as int)),
    ensures
        r as int == digits_value(cs@.subrange(from as int, to as int)),
        r < pow10((to - from) as nat),
{
    let mut v: u32 = 0;
    let mut i: usize = from;
    proof { lemma_small_powers(); }
    while i < to
        invariant
            from <= i <= to,
            to <= cs.len(),
            to - from <= 4,
            all_digits(cs@.subrange(from as int, to as int)),
            v as int == digits_value(cs@.subrange(from as int, i as int)),
            v < pow10((i - from) as nat),
        decreases to - i,
    {
        assert(digit_value(cs@.subrange(from as int, to as int)[i - from]) is Some);
        assert(cs@.subrange(from as int, to as int)[i - from] == cs@[i as int]);
        let c = cs[i];
        let dv: u32 = (c as u32) - ('0' as u32);
        assert(cs@.subrange(from as int, i + 1).drop_last() =~= cs@.subrange(from as int, i as int));
        assert(pow10((i + 1 - from) as nat) == pow10((i - from) as nat) * 10);
        assert(pow10((i + 1 - from) as nat) <= 10000) by {
            lemma_small_powers();
        }
        assert(v * 10 + dv < pow10((i + 1 - from) as nat)) by (nonlinear_arith)
            requires v < pow10((i - from) as nat), dv < 10, pow10((i + 1 - from) as nat) == pow10((i - from) as nat) * 10;
        v = v * 10 + dv;
        i = i + 1;
    }
    v
}

proof fn lemma_small_powers()
    ensures
        pow10(0) == 1,
        pow10(1) == 10,
        pow10(2) == 100,
        pow10(3) == 1000,
        pow10(4) == 10000,
{
    reveal_with_fuel(pow10, 5);
}

pub proof fn lemma_pow10_bound(k: nat)
    requires
        k <= 9,
    ensures
        1 <= pow10(k) <= 1_000_000_000,
        k <= 8 ==> pow10(k) * 10 <= 1_000_000_000,
{
    reveal_with_fuel(pow10, 10);
    if k == 0 {
    } else if k == 1 {
    } else if k == 2 {
    } else if k == 3 {
    } else if k == 4 {
    } else if k == 5 {
    } else if k == 6 {
    } else if k == 7 {
    } else if k == 8 {
    } else {
        assert(pow10(9) == 1_000_000_000);
    }
}

pub open spec fn pow10(k: nat) -> int
    decreases k,
{
    if k == 0 { 1 } else { pow10((k - 1) as nat) * 10 }
}

fn digits_in(cs: &Vec<char>, from: usize, to: usize) -> (r: bool)
    requires
        from <= to <= cs.len(),
    ensures
        r == all_digits(cs@.subrange(from as int, to as int)),
{
    let mut i: usize = from;
    while i < to
        invariant
            from <= i <= to <= cs.len(),
            all_digits(cs@.subrange(from as int, i as int)),
        decreases to - i,
    {
        let c = cs[i];
        if !('0' <= c && c <= '9') {
            assert(cs@.subrange(from as int, to as int)[i - from] == c);
            assert(digit_value(cs@.subrange(from as int, to as int)[i - from]) is None);
            return false;
        }
        assert forall|j: int| 0 <= j < i + 1 - from implies #[trigger] digit_value(
            cs@.subrange(from as int, i + 1)[j],
        ) is Some by {
            if j < i - from {
                assert(cs@.subrange(from as int, i + 1)[j] == cs@.subrange(from as int, i as int)[j]);
            }
        }
        i = i + 1;
    }
    true
}

fn date_shape_ok(cs: &Vec<char>) -> (r: bool)
    ensures
        r == date_shaped(cs@),
{
    if cs.len() != 10 || cs[4] != '-' || cs[7] != '-' {
        return false;
    }
    digits_in(cs, 0, 4) && digits_in(cs, 5, 7) && digits_in(cs, 8, 10)
}

/// Reads a `YYYY-MM-DD` date.
#[verifier::rlimit(30)]
pub fn parse_date(s: &str) -> (r: Result<CivilDate, StoreError>)
    ensures
        match r {
            Ok(d) => parse_date_spec(s@) == Some(d) && d.wf(),
            Err(e) => parse_date_spec(s@) is None && e is InvalidQuery,
        },
{
    let cs = chars_of(s);
    if !date_shape_ok(&cs) {
        return Err(StoreError::InvalidQuery(invalid_date_message("Invalid date format: ", s)));
    }
    let y = digits_at(&cs, 0, 4);
    let m = digits_at(&cs, 5, 7);
    let d = digits_at(&cs, 8, 10);
    let ghost ys = digits_value(s@.subrange(0, 4));
    let ghost ms = digits_value(s@.subrange(5, 7));
    let ghost ds = digits_value(s@.subrange(8, 10));
    assert(y as int == ys && m as int == ms && d as int == ds);
    proof { lemma_small_powers(); }
    assert(y < 10000);
    if m < 1 || m > 12 {
        return Err(StoreError::InvalidQuery(invalid_date_message("Invalid month in date: ", s)));
    }
    let len = month_length(y as i32, m as u8);
    assert(len as int == days_in_month(ys, ms));
    if d < 1 || d > len as u32 {
        return Err(StoreError::InvalidQuery(invalid_date_message("Invalid date: ", s)));
    }
    Ok(CivilDate { year: y as i32, month: m as u8, day: d as u8 })
}

fn invalid_date_message(prefix: &str, s: &str) -> (r: String)
    ensures
        r@ == prefix@ + s@,
{
    let mut out: Vec<char> = Vec::new();
    push_str(&mut out, prefix);
    push_str(&mut out, s);
    string_of(&out)
}

/// Appends the `YYYY-MM-DD` text of a date.
pub fn push_date(out: &mut Vec<char>, d: &CivilDate)
    requires
        d.wf(),
    ensures
        final(out)@ == old(out)@ + format_date_spec(*d),
{
    if d.year >= 0 {
        push_padded(out, d.year as u64, 4);
    } else {
        out.push('-');
        push_padded(out, (-d.year) as u64, 3);
    }
    out.push('-');
    push_padded(out, d.month as u64, 2);
    out.push('-');
    push_padded(out, d.day as u64, 2);
    assert(out@ =~= old(out)@ + format_date_spec(*d));
}

/// The `YYYY-MM-DD` text of a date.
pub fn format_date(d: &CivilDate) -> (r: String)
    requires
        d.wf(),
    ensures
        r@ == format_date_spec(*d),
{
    let mut out: Vec<char> = Vec::new();
    push_date(&mut out, d);
    assert(out@ =~= format_date_spec(*d));
    string_of(&out)
}

} // verus!
