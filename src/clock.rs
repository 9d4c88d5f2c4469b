//! Instants: readings of the system clock and RFC 3339 timestamps, both taken
//! from the `time` crate and handed on as Unix seconds with their UTC day.

use vstd::prelude::*;
use crate::calendar::{CivilDate, midnight_of, format_date_spec, CLOCK_MIN_YEAR};
use crate::text::padded;

verus! {

/// An instant in Unix seconds, together with the UTC calendar day it falls on.
#[derive(Debug, Clone, Copy, PartialEq, Eq, Structural)]
pub struct UtcInstant {
    pub unix_seconds: i64,
    pub date: CivilDate,
}

impl UtcInstant {
    /// The date is a real day and the instant lies within it.
    pub open spec fn wf(self) -> bool {
        &&& self.date.wf()
        &&& midnight_of(self.date) <= self.unix_seconds < midnight_of(self.date) + 86400
    }
}

/// What `OffsetDateTime::parse(text, &Rfc3339)` makes of a text, as Unix
/// seconds and UTC day; `None` where it refuses the text or the day falls out
/// of the supported years.
pub uninterp spec fn rfc3339_instant_of(text: Seq<char>) -> Option<UtcInstant>;

/// The valid day `d` holds the instant `t` (Unix seconds).
pub open spec fn day_holds(d: CivilDate, t: int) -> bool {
    d.wf() && midnight_of(d) <= t < midnight_of(d) + 86400
}

/// The RFC 3339 text of a whole Unix second in UTC,
/// `YYYY-MM-DDTHH:MM:SSZ`; none where its day falls outside years 0..=9999.
pub open spec fn rfc3339_text_of(t: int) -> Option<Seq<char>> {
    if exists|d: CivilDate| #[trigger] day_holds(d, t) && d.year >= 0 {
        let d = choose|d: CivilDate| #[trigger] day_holds(d, t) && d.year >= 0;
        let s = t - midnight_of(d);
        Some(
            format_date_spec(d) + "T"@ + padded((s / 3600) as nat, 2) + ":"@ + padded(
                ((s % 3600) / 60) as nat,
                2,
            ) + ":"@ + padded((s % 60) as nat, 2) + "Z"@,
        )
    } else {
        None
    }
}

/// Relies on `time::OffsetDateTime::now_utc`: the current instant in UTC. Its
/// date is a valid calendar date within years -9999..=9999 and is the UTC day
/// that holds the instant.
#[verifier::external_body]
pub(crate) fn now_utc() -> (r: UtcInstant)
    ensures
        r.wf(),
        r.date.year >= CLOCK_MIN_YEAR,
{
    let t = time::OffsetDateTime::now_utc();
    UtcInstant {
        unix_seconds: t.unix_timestamp(),
        date: CivilDate { year: t.year(), month: t.month() as u8, day: t.day() },
    }
}

/// Relies on `time::OffsetDateTime::parse` with the RFC 3339 format, then
/// `checked_to_offset(UTC)`: a parsed instant always has a valid UTC date that
/// holds it.
#[verifier::external_body]
pub(crate) fn parse_rfc3339(text: &str) -> (r: Option<UtcInstant>)
    ensures
        r == rfc3339_instant_of(text@),
        r matches Some(i) ==> i.wf() && i.date.year >= CLOCK_MIN_YEAR,
{
    let format = &time::format_description::well_known::Rfc3339;
    match time::OffsetDateTime::parse(text, format) {
        Ok(t) => t.checked_to_offset(time::UtcOffset::UTC).map(|u| UtcInstant {
            unix_seconds: u.unix_timestamp(),
            date: CivilDate { year: u.year(), month: u.month() as u8, day: u.day() },
        }),
        Err(_) => None,
    }
}

/// Relies on `time::OffsetDateTime::from_unix_timestamp` and `format` with the
/// RFC 3339 format: a whole second in UTC is written `YYYY-MM-DDTHH:MM:SSZ`
/// (no fraction, `Z` for the zero offset); `from_unix_timestamp` refuses years
/// beyond -9999..=9999 and `format` refuses years below 0.
#[verifier::external_body]
pub(crate) fn format_rfc3339(unix_seconds: i64) -> (r: Option<String>)
    ensures
        match r {
            Some(t) => rfc3339_text_of(unix_seconds as int) == Some(t@),
            None => rfc3339_text_of(unix_seconds as int) is None,
        },
{
    let format = &time::format_description::well_known::Rfc3339;
    match time::OffsetDateTime::from_unix_timestamp(unix_seconds) {
        Ok(t) => t.format(format).ok(),
        Err(_) => None,
    }
}

pub open spec fn epoch_text() -> Seq<char> {
    "1970-01-01T00:00:00Z"@
}

/// The text of a formatted timestamp, with the Unix epoch standing in where
/// formatting failed.
pub fn timestamp_text_or_epoch(formatted: Option<String>) -> (r: String)
    ensures
        r@ == match formatted {
            Some(t) => t@,
            None => epoch_text(),
        },
{
    match formatted {
        Some(t) => t,
        None => String::from_str("1970-01-01T00:00:00Z"),
    }
}

/// RFC 3339 text of a Unix time; the epoch where it cannot be written.
pub fn format_timestamp(unix_seconds: i64) -> (r: String)
    ensures
        r@ == match rfc3339_text_of(unix_seconds as int) {
            Some(t) => t,
            None => epoch_text(),
        },
{
    timestamp_text_or_epoch(format_rfc3339(unix_seconds))
}

} // verus!
