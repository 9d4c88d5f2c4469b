//! Date ranges of a dashboard request: the calendar days they cover and the
//! instants that bound them.

use vstd::prelude::*;
use crate::calendar::{CivilDate, min_date, next_date, prev_date, midnight_of, parse_date, parse_date_spec, format_date_spec, lemma_next_date, lemma_prev_date, lemma_next_is_least_later, lemma_le_eq, lemma_day_number_bounds, lemma_day_number_monotonic, lemma_day_number_next, day_number, CLOCK_MIN_YEAR};
use crate::clock::{UtcInstant, now_utc, format_timestamp, rfc3339_text_of, epoch_text};
use crate::errors::StoreError;
use crate::text::{string_of, push_str};

verus! {

/// The days from `a` to `b`, both included, in calendar order.
pub open spec fn dates_between(a: CivilDate, b: CivilDate) -> Seq<CivilDate>
    decreases b.ordinal() - a.ordinal(),
    via dates_between_decreases
{
    if !(a.wf() && b.wf() && a.le(b)) {
        seq![]
    } else if a == b {
        seq![a]
    } else {
        seq![a] + dates_between(next_date(a), b)
    }
}

#[via_fn]
proof fn dates_between_decreases(a: CivilDate, b: CivilDate) {
    if a.wf() && b.wf() && a.le(b) && a != b {
        lemma_next_is_least_later(a, b);
        lemma_next_date(a);
    }
}

/// `d` stepped back `k` days, stopping at the earliest supported date.
pub open spec fn days_before(d: CivilDate, k: nat) -> CivilDate
    decreases k,
{
    if k == 0 {
        d
    } else {
        let p = days_before(d, (k - 1) as nat);
        if p == min_date() { p } else { prev_date(p) }
    }
}

/// Stepping back `k` days from `d` stays within the supported years.
pub open spec fn can_step_back(d: CivilDate, k: nat) -> bool
    decreases k,
{
    k == 0 || (can_step_back(d, (k - 1) as nat) && days_before(d, (k - 1) as nat) != min_date())
}

/// The end of a custom range's time window: the end of its last day, or `now`
/// where that is earlier.
pub open spec fn custom_end_time(b: CivilDate, now: UtcInstant) -> int {
    if midnight_of(b) + 86400 > now.unix_seconds { now.unix_seconds as int } else { midnight_of(b) + 86400 }
}

/// The start of a custom range's time window: the midnight of its first day,
/// held at the end of the window where that is earlier.
pub open spec fn custom_start_time(a: CivilDate, b: CivilDate, now: UtcInstant) -> int {
    if midnight_of(a) > custom_end_time(b, now) { custom_end_time(b, now) } else { midnight_of(a) }
}

/// The longest run of days that stepping back from a clock reading always
/// allows: the 400 years between `MIN_YEAR` and `CLOCK_MIN_YEAR`, plus today.
pub const MAX_LAST_DAYS: u32 = 146_098;

/// The time bounds in RFC 3339, with the epoch where a bound cannot be written.
pub open spec fn timestamp_text(t: int) -> Seq<char> {
    match rfc3339_text_of(t) {
        Some(s) => s,
        None => epoch_text(),
    }
}

/// The calendar days `[start_date, end_date]` and the instants
/// `[start_time, end_time]` (Unix seconds) that a query covers.
///
/// Both `start_date <= end_date` and `start_time <= end_time` hold (`wf`).
#[derive(Debug, Clone, Copy, PartialEq, Eq, Structural)]
pub struct DateRange {
    pub start_date: CivilDate,
    pub end_date: CivilDate,
    pub start_time: i64,
    pub end_time: i64,
}

impl DateRange {
    pub open spec fn wf(self) -> bool {
        &&& self.start_date.wf()
        &&& self.end_date.wf()
        &&& self.start_date.le(self.end_date)
        &&& self.start_time <= self.end_time
    }

    /// The days the range covers.
    pub open spec fn days(self) -> Seq<CivilDate> {
        dates_between(self.start_date, self.end_date)
    }

    /// Today only, at the instant `now`.
    pub open spec fn today_spec(now: UtcInstant) -> DateRange {
        DateRange {
            start_date: now.date,
            end_date: now.date,
            start_time: midnight_of(now.date) as i64,
            end_time: now.unix_seconds,
        }
    }

    /// Today only, from UTC midnight to `now`.
    pub fn today_at(now: UtcInstant) -> (r: DateRange)
        requires
            now.wf(),
        ensures
            r.wf(),
            r.start_date == now.date,
            r.end_date == now.date,
            r.start_time == midnight_of(now.date),
            r.end_time == now.unix_seconds,
            r.start_time <= r.end_time,
    {
        DateRange {
            start_date: now.date,
            end_date: now.date,
            start_time: now.date.midnight(),
            end_time: now.unix_seconds,
        }
    }

    /// Today only, by the system clock.
    pub fn today() -> (r: DateRange)
        ensures
            r.wf(),
            r.start_date == r.end_date,
            r.start_time == midnight_of(r.end_date),
            r.start_time <= r.end_time,
    {
        DateRange::today_at(now_utc())
    }

    /// The `n` days that end on the day of `now`, from the midnight of the
    /// first to `now`.
    /// Stepping back stops at the earliest supported day, -9999-01-01: where
    /// `n` reaches past it the range starts there and holds fewer than `n`
    /// days.
    pub fn last_n_days_at(now: UtcInstant, n: u32) -> (r: DateRange)
        requires
            now.wf(),
            n >= 1,
        ensures
            r.wf(),
            r.start_date == days_before(now.date, (n - 1) as nat),
            r.end_date == now.date,
            r.start_time == midnight_of(r.start_date),
            r.end_time == now.unix_seconds,
            r.start_time <= r.end_time,
            now.date.year >= CLOCK_MIN_YEAR && n <= MAX_LAST_DAYS ==> can_step_back(
                now.date,
                (n - 1) as nat,
            ),
    {
        proof {
            if now.date.year >= CLOCK_MIN_YEAR && n <= MAX_LAST_DAYS {
                lemma_clock_day_steps_back(now.date, (n - 1) as nat);
            }
        }
        let mut start = now.date;
        let mut k: u32 = 0;
        while k < n - 1 && !start.is_min()
            invariant
                now.wf(),
                k <= n - 1,
                start == days_before(now.date, k as nat),
                start.wf(),
                start.le(now.date),
            decreases n - 1 - k,
        {
            proof { lemma_prev_date(start); }
            start = start.previous_day();
            k = k + 1;
        }
        proof {
            lemma_days_before_stays_at_min(now.date, k as nat, (n - 1) as nat);
            lemma_day_number_monotonic(start, now.date);
        }
        DateRange {
            start_date: start,
            end_date: now.date,
            start_time: start.midnight(),
            end_time: now.unix_seconds,
        }
    }

    /// The last `n` days, today included, by the system clock.
    pub fn last_n_days(n: u32) -> (r: DateRange)
        requires
            n >= 1,
        ensures
            r.wf(),
            r.start_date == days_before(r.end_date, (n - 1) as nat),
            r.start_time == midnight_of(r.start_date),
            r.start_time <= r.end_time,
            n <= MAX_LAST_DAYS ==> r.days().len() == n && r.days().last() == r.end_date
                && consecutive_days(r.days()),
    {
        let now = now_utc();
        let r = DateRange::last_n_days_at(now, n);
        proof {
            if n <= MAX_LAST_DAYS {
                lemma_last_n_days_span(now.date, n as nat);
            }
        }
        r
    }

    /// The days from `start` to `end` (`YYYY-MM-DD`, both included). The time
    /// window ends at the end of the last day or at `now`, whichever is
    /// earlier, and starts at the midnight of the first day, or at that end
    /// where it is earlier (a range that starts after `now` is the single
    /// instant `now`). Fails when a date is malformed or `start` is after `end`.
    pub fn custom_at(start: &str, end: &str, now: UtcInstant) -> (r: Result<DateRange, StoreError>)
        requires
            now.wf(),
        ensures
            match (parse_date_spec(start@), parse_date_spec(end@)) {
                (Some(a), Some(b)) => if b.lt(a) {
                    r matches Err(e) && e is InvalidQuery
                } else {
                    r == Ok::<DateRange, StoreError>(DateRange {
                        start_date: a,
                        end_date: b,
                        start_time: custom_start_time(a, b, now) as i64,
                        end_time: custom_end_time(b, now) as i64,
                    })
                },
                _ => r matches Err(e) && e is InvalidQuery,
            },
            r matches Ok(range) ==> range.wf(),
            r matches Ok(range) ==> range.start_time <= range.end_time,
            r matches Ok(range) ==> (range.start_date.le(now.date) ==> range.start_time
                == midnight_of(range.start_date)),
    {
        let a = match parse_date(start) {
            Ok(d) => d,
            Err(e) => {
                return Err(e);
            },
        };
        let b = match parse_date(end) {
            Ok(d) => d,
            Err(e) => {
                return Err(e);
            },
        };
        if !a.on_or_before(&b) {
            let mut msg: Vec<char> = Vec::new();
            push_str(&mut msg, "Start date must be before or equal to end date");
            return Err(StoreError::InvalidQuery(string_of(&msg)));
        }
        let start_time = a.midnight();
        proof {
            lemma_day_number_bounds(b);
            lemma_day_number_monotonic(a, b);
            if a.le(now.date) {
                lemma_day_number_monotonic(a, now.date);
            }
        }
        let end_of_end = b.midnight() + 86400;
        let end_time = if end_of_end > now.unix_seconds {
            now.unix_seconds
        } else {
            end_of_end
        };
        let start_time = if start_time > end_time { end_time } else { start_time };
        Ok(DateRange { start_date: a, end_date: b, start_time, end_time })
    }

    /// `custom_at` by the system clock.
    pub fn custom(start: &str, end: &str) -> (r: Result<DateRange, StoreError>)
        ensures
            match (parse_date_spec(start@), parse_date_spec(end@)) {
                (Some(a), Some(b)) => if b.lt(a) {
                    r matches Err(e) && e is InvalidQuery
                } else {
                    r matches Ok(range) && range.start_date == a && range.end_date == b
                        && range.start_time <= midnight_of(a) && range.end_time <= midnight_of(b)
                        + 86400
                },
                _ => r matches Err(e) && e is InvalidQuery,
            },
            r matches Ok(range) ==> range.wf(),
            r matches Ok(range) ==> range.start_time <= range.end_time,
    {
        DateRange::custom_at(start, end, now_utc())
    }

    /// Every day of the range as `YYYY-MM-DD`, in calendar order.
    pub fn dates(&self) -> (r: Vec<String>)
        requires
            self.wf(),
        ensures
            r@.len() == self.days().len(),
            forall|i: int| 0 <= i < r@.len() ==> #[trigger] r@[i]@ == format_date_spec(
                self.days()[i],
            ),
    {
        let days = self.day_list();
        let mut out: Vec<String> = Vec::new();
        let mut i: usize = 0;
        while i < days.len()
            invariant
                i <= days@.len(),
                days@ == self.days(),
                forall|k: int| 0 <= k < days@.len() ==> (#[trigger] days@[k]).wf(),
                out@.len() == i,
                forall|k: int| 0 <= k < i ==> #[trigger] out@[k]@ == format_date_spec(days@[k]),
            decreases days@.len() - i,
        {
            out.push(crate::calendar::format_date(&days[i]));
            i = i + 1;
        }
        out
    }

    /// Every day of the range, in calendar order.
    pub fn day_list(&self) -> (r: Vec<CivilDate>)
        requires
            self.wf(),
        ensures
            r@ == self.days(),
            forall|i: int| 0 <= i < r@.len() ==> (#[trigger] r@[i]).wf(),
    {
        let mut out: Vec<CivilDate> = Vec::new();
        let mut cur = self.start_date;
        let mut done = false;
        let ghost all = self.days();
        proof { lemma_custom_range_days(self.start_date, self.end_date); }
        while !done
            invariant
                self.wf(),
                all == self.days(),
                forall|i: int| 0 <= i < all.len() ==> (#[trigger] all[i]).wf(),
                cur.wf(),
                cur.le(self.end_date),
                !done ==> all == out@ + dates_between(cur, self.end_date),
                done ==> out@ == all,
            decreases (if done { 0 } else { self.end_date.ordinal() - cur.ordinal() + 1 }),
        {
            let ghost rest = dates_between(cur, self.end_date);
            assert(rest[0] == cur);
            out.push(cur);
            if cur == self.end_date {
                assert(rest =~= seq![cur]);
                assert(all =~= out@);
                done = true;
            } else {
                proof {
                    lemma_le_neq_lt(cur, self.end_date);
                    lemma_next_is_least_later(cur, self.end_date);
                    lemma_next_date(cur);
                    assert(rest == seq![cur] + dates_between(next_date(cur), self.end_date));
                    assert(all =~= out@ + dates_between(next_date(cur), self.end_date));
                }
                cur = cur.next_day();
            }
        }
        out
    }

    /// The lower time bound in RFC 3339.
    pub fn start_time_str(&self) -> (r: String)
        ensures
            r@ == timestamp_text(self.start_time as int),
    {
        format_timestamp(self.start_time)
    }

    /// The upper time bound in RFC 3339.
    pub fn end_time_str(&self) -> (r: String)
        ensures
            r@ == timestamp_text(self.end_time as int),
    {
        format_timestamp(self.end_time)
    }
}

/// Consecutive days: each day of `s` is followed by the next calendar day.
pub open spec fn consecutive_days(s: Seq<CivilDate>) -> bool {
    forall|i: int|
        0 <= i < s.len() - 1 ==> s[i + 1] == #[trigger] next_date(s[i]) && s[i].lt(s[i + 1])
}

/// The last `n` days ending on `today` are exactly `n` days, end on `today`,
/// and ascend one day at a time, with no gaps.
pub proof fn lemma_last_n_days_span(today: CivilDate, n: nat)
    requires
        today.wf(),
        n >= 1,
        can_step_back(today, (n - 1) as nat),
    ensures
        dates_between(days_before(today, (n - 1) as nat), today).len() == n,
        dates_between(days_before(today, (n - 1) as nat), today).last() == today,
        consecutive_days(dates_between(days_before(today, (n - 1) as nat), today)),
{
    lemma_back_span(today, (n - 1) as nat);
}

proof fn lemma_back_span(d: CivilDate, k: nat)
    requires
        d.wf(),
        can_step_back(d, k),
    ensures
        days_before(d, k).wf(),
        days_before(d, k).le(d),
        dates_between(days_before(d, k), d).len() == k + 1,
        dates_between(days_before(d, k), d)[0] == days_before(d, k),
        dates_between(days_before(d, k), d).last() == d,
        consecutive_days(dates_between(days_before(d, k), d)),
    decreases k,
{
    if k == 0 {
        assert(dates_between(d, d) =~= seq![d]);
    } else {
        let q = days_before(d, (k - 1) as nat);
        lemma_back_span(d, (k - 1) as nat);
        lemma_prev_date(q);
        let p = days_before(d, k);
        assert(p == prev_date(q));
        assert(p != d);
        let rest = dates_between(q, d);
        let s = dates_between(p, d);
        assert(s == seq![p] + rest);
        assert forall|i: int| 0 <= i < s.len() - 1 implies s[i + 1] == #[trigger] next_date(s[i])
            && s[i].lt(s[i + 1]) by {
            if i > 0 {
                assert(s[i] == rest[i - 1]);
                assert(s[i + 1] == rest[i]);
            }
        }
    }
}

/// A valid range from `a` to `b` covers every day from `a` to `b` and no
/// other, ascending one day at a time from `a` to `b`.
pub proof fn lemma_custom_range_days(a: CivilDate, b: CivilDate)
    requires
        a.wf(),
        b.wf(),
        a.le(b),
    ensures
        dates_between(a, b)[0] == a,
        dates_between(a, b).last() == b,
        consecutive_days(dates_between(a, b)),
        forall|c: CivilDate| c.wf() && a.le(c) && c.le(b) ==> dates_between(a, b).contains(c),
        forall|i: int|
            0 <= i < dates_between(a, b).len() ==> {
                let c = #[trigger] dates_between(a, b)[i];
                c.wf() && a.le(c) && c.le(b)
            },
    decreases b.ordinal() - a.ordinal(),
{
    let s = dates_between(a, b);
    if a == b {
        assert(s =~= seq![a]);
        assert forall|c: CivilDate| c.wf() && a.le(c) && c.le(b) implies s.contains(c) by {
            lemma_le_eq(a, c);
            assert(s[0] == c);
        }
    } else {
        lemma_le_neq_lt(a, b);
        lemma_next_is_least_later(a, b);
        lemma_next_date(a);
        let n = next_date(a);
        lemma_custom_range_days(n, b);
        let rest = dates_between(n, b);
        assert(s == seq![a] + rest);
        assert forall|i: int| 0 <= i < s.len() - 1 implies s[i + 1] == #[trigger] next_date(s[i])
            && s[i].lt(s[i + 1]) by {
            if i > 0 {
                assert(s[i] == rest[i - 1]);
                assert(s[i + 1] == rest[i]);
            } else {
                assert(s[0] == a);
                assert(s[1] == rest[0]);
                assert(rest[0] == n);
            }
        }
        assert forall|c: CivilDate| c.wf() && a.le(c) && c.le(b) implies s.contains(c) by {
            if c == a {
                assert(s[0] == c);
            } else {
                lemma_le_neq_lt(a, c);
                lemma_next_is_least_later(a, c);
                assert(rest.contains(c));
                let j = choose|j: int| 0 <= j < rest.len() && rest[j] == c;
                assert(s[j + 1] == c);
            }
        }
        assert forall|i: int| 0 <= i < s.len() implies {
            let c = #[trigger] s[i];
            c.wf() && a.le(c) && c.le(b)
        } by {
            if i > 0 {
                assert(s[i] == rest[i - 1]);
            }
        }
    }
}

proof fn lemma_day_number_prev(d: CivilDate)
    requires
        d.wf(),
        d != min_date(),
    ensures
        day_number(prev_date(d)) == day_number(d) - 1,
{
    lemma_prev_date(d);
    lemma_day_number_next(prev_date(d));
}

proof fn lemma_days_before_number(d: CivilDate, k: nat)
    requires
        d.wf(),
        can_step_back(d, k),
    ensures
        days_before(d, k).wf(),
        day_number(days_before(d, k)) == day_number(d) - k,
    decreases k,
{
    if k > 0 {
        lemma_days_before_number(d, (k - 1) as nat);
        lemma_day_number_prev(days_before(d, (k - 1) as nat));
        lemma_prev_date(days_before(d, (k - 1) as nat));
    }
}

/// From any day the clock can give, up to 146097 days can be stepped back.
pub proof fn lemma_clock_day_steps_back(d: CivilDate, k: nat)
    requires
        d.wf(),
        d.year >= CLOCK_MIN_YEAR,
        k <= MAX_LAST_DAYS - 1,
    ensures
        can_step_back(d, k),
    decreases k,
{
    if k > 0 {
        lemma_clock_day_steps_back(d, (k - 1) as nat);
        lemma_days_before_number(d, (k - 1) as nat);
        let first = CivilDate { year: CLOCK_MIN_YEAR, month: 1, day: 1 };
        lemma_day_number_monotonic(first, d);
        assert(day_number(first) == day_number(min_date()) + 146097);
    }
}

proof fn lemma_le_neq_lt(a: CivilDate, b: CivilDate)
    requires
        a.wf(),
        b.wf(),
        a.le(b),
        a != b,
    ensures
        a.lt(b),
{
    if b.le(a) {
        lemma_le_eq(a, b);
    }
}

proof fn lemma_days_before_stays_at_min(d: CivilDate, k: nat, m: nat)
    requires
        k <= m,
        days_before(d, k) == min_date() || k == m,
    ensures
        days_before(d, m) == days_before(d, k),
    decreases m - k,
{
    if k < m {
        lemma_days_before_stays_at_min(d, k, (m - 1) as nat);
    }
}

} // verus!
