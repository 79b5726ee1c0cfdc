//! Instants, dates and zones, through chrono and chrono-tz.
//!
//! An instant is held as milliseconds since the epoch, a date as days since
//! 1970-01-01 and a wall-clock reading as the milliseconds that the same
//! reading would have in UTC. chrono represents dates from the year -262143
//! to the year 262142; the range below is that span in milliseconds.

use caldir_core::EventTime as CalTime;
use chrono::{DateTime, NaiveDate, Offset, TimeZone};
use vstd::prelude::*;

use crate::event::{EventTime, EventTimeView};
use crate::text::{all_digits, is_digit};

verus! {

pub const DAY_MS: i64 = 86_400_000;

pub const HOUR_MS: i64 = 3_600_000;

/// The first millisecond that chrono can represent (-262143-01-01T00:00:00).
pub const MIN_MS: i64 = -8_334_601_315_200_000;

/// The last millisecond that chrono can represent (262142-12-31T23:59:59.999).
pub const MAX_MS: i64 = 8_210_266_876_799_999;

/// The first and last day that chrono can represent.
pub const MIN_DAY: i32 = -96_465_293;

pub const MAX_DAY: i32 = 95_026_236;

/// An instant as chrono orders a `DateTime<Utc>`: the whole seconds since
/// the epoch, then the nanoseconds into the second, which pass one second
/// only during a leap second.
#[derive(Debug, Clone, Copy, PartialEq, Eq)]
pub struct Instant {
    pub secs: i64,
    pub nanos: u32,
}

/// Whether `a` comes before `b`.
pub open spec fn instant_lt(a: Instant, b: Instant) -> bool {
    a.secs < b.secs || (a.secs == b.secs && a.nanos < b.nanos)
}

/// The instant of a whole number of milliseconds since the epoch.
pub open spec fn millis_instant(ms: int) -> Instant {
    Instant { secs: (ms / 1000) as i64, nanos: ((ms % 1000) * 1_000_000) as u32 }
}

impl Instant {
    /// The instant of a whole number of milliseconds since the epoch.
    pub fn from_millis(ms: i64) -> (r: Instant)
        ensures
            r == millis_instant(ms as int),
    {
        let q = ms / 1000;
        let rem = ms % 1000;
        if rem < 0 {
            Instant { secs: q - 1, nanos: ((rem + 1000) as u32) * 1_000_000 }
        } else {
            Instant { secs: q, nanos: (rem as u32) * 1_000_000 }
        }
    }

    /// Whether this instant comes before the other.
    pub fn before(self, other: Instant) -> (r: bool)
        ensures
            r == instant_lt(self, other),
    {
        self.secs < other.secs || (self.secs == other.secs && self.nanos < other.nanos)
    }
}

/// Whether chrono can represent the instant (what
/// `DateTime::<Utc>::from_timestamp_millis(ms).is_some()` says).
pub open spec fn in_range(ms: int) -> bool {
    MIN_MS <= ms <= MAX_MS
}

/// An instant two days or more inside chrono's range: zone offsets, which
/// are less than a day, cannot carry it out of range.
pub open spec fn well_inside(ms: int) -> bool {
    MIN_MS + 2 * DAY_MS <= ms <= MAX_MS - 2 * DAY_MS
}

/// `DateTime::<Utc>::from_timestamp_millis(ms).is_some()`.
pub fn millis_in_range(ms: i64) -> (r: bool)
    ensures
        r == in_range(ms as int),
{
    MIN_MS <= ms && ms <= MAX_MS
}

/// The date of an instant (`DateTime::date_naive`), as days since the epoch.
pub open spec fn day_of(ms: int) -> int {
    ms / (DAY_MS as int)
}

/// Whether a time can be handed to chrono and converted without leaving
/// its range.
pub open spec fn time_is_convertible(t: EventTimeView) -> bool {
    match t {
        EventTimeView::Date(d) => well_inside(d * DAY_MS),
        EventTimeView::DateTimeUtc(ms) => in_range(ms as int),
        EventTimeView::DateTimeFloating(ms) => well_inside(ms as int),
        EventTimeView::DateTimeZoned { datetime, .. } => well_inside(datetime as int),
    }
}

/// Whether chrono-tz knows the IANA zone of this name.
pub uninterp spec fn spec_tz_known(zone: Seq<char>) -> bool;

/// The offset from UTC, in seconds, of the zone at the instant.
pub uninterp spec fn spec_zone_offset_seconds(zone: Seq<char>, utc_ms: i64) -> i32;

/// The offset from UTC, in milliseconds, of the zone at the instant.
pub open spec fn zone_offset_ms(zone: Seq<char>, utc_ms: i64) -> int {
    spec_zone_offset_seconds(zone, utc_ms) * 1000
}

/// The instant that caldir gives a wall-clock time in a known zone.
pub uninterp spec fn spec_zoned_to_utc(zone: Seq<char>, local_ms: i64) -> i64;

/// The text of an instant in a chrono `strftime` format.
pub uninterp spec fn spec_utc_format(ms: i64, fmt: Seq<char>) -> Seq<char>;

/// The date that `NaiveDate::parse_from_str` reads from the text.
pub uninterp spec fn spec_date_parse(s: Seq<char>, fmt: Seq<char>) -> Option<i32>;

/// The wall-clock time that `NaiveDateTime::parse_from_str` reads, as whole
/// seconds since the epoch (a leap second counts as the second before it).
pub uninterp spec fn spec_datetime_parse(s: Seq<char>, fmt: Seq<char>) -> Option<i64>;

/// The earliest instant at which the zone's clocks show the wall-clock time.
pub uninterp spec fn spec_zone_local_earliest(zone: Seq<char>, local_ms: i64) -> Option<i64>;

/// Whether `zone` names an IANA zone (`zone.parse::<chrono_tz::Tz>()`).
#[verifier::external_body]
pub fn tz_is_known(zone: &str) -> (r: bool)
    ensures
        r == spec_tz_known(zone@),
{
    zone.parse::<chrono_tz::Tz>().is_ok()
}

/// The zone's offset from UTC at the instant, in seconds
/// (`TimeZone::offset_from_utc_datetime`, then `Offset::fix` and
/// `FixedOffset::local_minus_utc`); a `FixedOffset` is always less than a
/// day.
#[verifier::external_body]
pub fn zone_offset_seconds(zone: &str, utc_ms: i64) -> (r: i32)
    requires
        spec_tz_known(zone@),
        in_range(utc_ms as int),
    ensures
        r == spec_zone_offset_seconds(zone@, utc_ms),
        -86_400 < r < 86_400,
{
    let tz: chrono_tz::Tz = zone.parse().unwrap();
    let utc = chrono::DateTime::from_timestamp_millis(utc_ms).unwrap();
    tz.offset_from_utc_datetime(&utc.naive_utc()).fix().local_minus_utc()
}

/// The instant of a time, as caldir computes it (`EventTime::to_utc`): an
/// instant is itself, and a wall-clock time in a known zone is resolved in
/// that zone. Dates, floating times and times in unknown zones are
/// resolved in the machine's local zone, so nothing is stated of them but
/// that the result lies in chrono's range.
#[verifier::external_body]
pub fn event_time_to_utc(t: &EventTime) -> (r: i64)
    requires
        time_is_convertible(t@),
    ensures
        in_range(r as int),
        t@ matches EventTimeView::DateTimeUtc(ms) ==> r == ms,
        t@ matches EventTimeView::DateTimeZoned { datetime, tzid } ==> (spec_tz_known(tzid) ==> r
            == spec_zoned_to_utc(tzid, datetime)),
{
    let c = match t {
        EventTime::Date(d) => CalTime::Date(NaiveDate::from_epoch_days(*d).unwrap()),
        EventTime::DateTimeUtc(ms) => CalTime::DateTimeUtc(DateTime::from_timestamp_millis(*ms).unwrap()),
        EventTime::DateTimeFloating(ms) => CalTime::DateTimeFloating(
            DateTime::from_timestamp_millis(*ms).unwrap().naive_utc(),
        ),
        EventTime::DateTimeZoned { datetime, tzid } => CalTime::DateTimeZoned {
            datetime: DateTime::from_timestamp_millis(*datetime).unwrap().naive_utc(),
            tzid: tzid.clone(),
        },
    };
    c.to_utc().timestamp_millis()
}

/// The first instant of the year 0 and of the year 10000: chrono writes
/// the years between with four digits and no sign.
pub const YEAR_ZERO_MS: i64 = -62_167_219_200_000;

pub const YEAR_TEN_THOUSAND_MS: i64 = 253_402_300_800_000;

pub open spec fn four_digit_year(ms: int) -> bool {
    YEAR_ZERO_MS <= ms < YEAR_TEN_THOUSAND_MS
}

/// The smallest step that a format shows: a day for `%Y%m%d`, else a
/// second.
pub open spec fn format_unit(fmt: Seq<char>) -> int {
    if fmt == "%Y%m%d"@ {
        DAY_MS as int
    } else {
        1000
    }
}

/// The shape of `%Y%m%dT%H%M%SZ` text in a four-digit year: digits, with
/// `T` after the date and `Z` at the end.
pub open spec fn utc_text_shape(s: Seq<char>) -> bool {
    &&& s.len() == 16
    &&& s[8] == 'T'
    &&& s[15] == 'Z'
    &&& forall|i: int| 0 <= i < 16 && i != 8 && i != 15 ==> is_digit(#[trigger] s[i])
}

/// The instant in a chrono `strftime` format (`DateTime::format`). The two
/// formats show nothing below a day or a second, so the instant gives the
/// text that the start of its day or second gives. In a year from 0 to
/// 9999 `%Y`, `%m`, `%d`, `%H`, `%M` and `%S` write zero-padded digits (four
/// for the year, two for the others), which the parser reads back as that
/// day (`NaiveDate::parse_from_str`) or that second
/// (`NaiveDateTime::parse_from_str`).
#[verifier::external_body]
pub fn utc_format(ms: i64, fmt: &str) -> (r: String)
    requires
        in_range(ms as int),
        fmt@ == "%Y%m%d"@ || fmt@ == "%Y%m%dT%H%M%SZ"@,
    ensures
        r@ == spec_utc_format(ms, fmt@),
        r@ == spec_utc_format(
            ((ms as int / format_unit(fmt@)) * format_unit(fmt@)) as i64,
            fmt@,
        ),
        fmt@ == "%Y%m%d"@ && four_digit_year(ms as int) ==> r@.len() == 8 && all_digits(r@)
            && spec_date_parse(r@, fmt@) == Some((ms as int / DAY_MS as int) as i32),
        fmt@ == "%Y%m%dT%H%M%SZ"@ && four_digit_year(ms as int) ==> utc_text_shape(r@)
            && spec_datetime_parse(r@, fmt@) == Some((ms as int / 1000) as i64),
{
    chrono::DateTime::from_timestamp_millis(ms).unwrap().format(fmt).to_string()
}

/// The date in the text (`NaiveDate::parse_from_str`), as days since the
/// epoch; every date chrono reads lies in its range. Eight digits read
/// with `%Y%m%d` are a year from 0 to 9999, a month and a day, which
/// `DateTime::format` with the same format writes back as those digits.
#[verifier::external_body]
pub fn naive_date_parse(s: &str, fmt: &str) -> (r: Option<i32>)
    ensures
        r == spec_date_parse(s@, fmt@),
        r matches Some(d) ==> MIN_DAY <= d <= MAX_DAY,
        r matches Some(d) ==> (fmt@ == "%Y%m%d"@ && s@.len() == 8 && all_digits(s@)
            ==> four_digit_year(d * DAY_MS) && spec_utc_format((d * DAY_MS) as i64, fmt@) == s@),
{
    match NaiveDate::parse_from_str(s, fmt) {
        Ok(d) => Some(d.to_epoch_days()),
        Err(_) => None,
    }
}

/// The wall-clock time in the text (`NaiveDateTime::parse_from_str`), as
/// whole seconds since the epoch (`timestamp`, which leaves out the
/// fraction that marks a leap second); every time chrono reads lies in its
/// range. Text of the `%Y%m%dT%H%M%SZ` shape whose seconds are not `60`
/// reads as a time in a year from 0 to 9999 that `DateTime::format` with
/// the same format writes back as the same text.
#[verifier::external_body]
pub fn naive_datetime_parse(s: &str, fmt: &str) -> (r: Option<i64>)
    ensures
        r == spec_datetime_parse(s@, fmt@),
        r matches Some(secs) ==> in_range(secs * 1000),
        r matches Some(secs) ==> (fmt@ == "%Y%m%dT%H%M%SZ"@ && utc_text_shape(s@) && !(s@[13]
            == '6' && s@[14] == '0') ==> four_digit_year(secs * 1000) && spec_utc_format(
            (secs * 1000) as i64,
            fmt@,
        ) == s@),
{
    match chrono::NaiveDateTime::parse_from_str(s, fmt) {
        Ok(d) => Some(d.and_utc().timestamp()),
        Err(_) => None,
    }
}

/// The earliest instant at which the zone shows the wall-clock time
/// (`TimeZone::from_local_datetime(..).earliest()`); none in a gap.
#[verifier::external_body]
pub fn zone_local_earliest(zone: &str, local_ms: i64) -> (r: Option<i64>)
    requires
        spec_tz_known(zone@),
        well_inside(local_ms as int),
    ensures
        r == spec_zone_local_earliest(zone@, local_ms),
        r matches Some(ms) ==> in_range(ms as int),
{
    let tz: chrono_tz::Tz = zone.parse().unwrap();
    let local = chrono::DateTime::from_timestamp_millis(local_ms).unwrap().naive_utc();
    match tz.from_local_datetime(&local).earliest() {
        Some(d) => Some(d.timestamp_millis()),
        None => None,
    }
}

/// The instant that an RFC 3339 date-time names, if the text is one.
pub uninterp spec fn spec_rfc3339(s: Seq<char>) -> Option<Instant>;

/// Reads an RFC 3339 date-time (`DateTime::parse_from_rfc3339`), as the
/// instant it names; chrono keeps the nanoseconds below two seconds.
#[verifier::external_body]
pub fn parse_rfc3339(s: &str) -> (r: Option<Instant>)
    ensures
        r == spec_rfc3339(s@),
        r matches Some(i) ==> i.nanos < 2_000_000_000,
{
    match DateTime::parse_from_rfc3339(s) {
        Ok(d) => Some(Instant { secs: d.timestamp(), nanos: d.timestamp_subsec_nanos() }),
        Err(_) => None,
    }
}

/// The time now, in milliseconds since the epoch
/// (`Utc::now().timestamp_millis()`): which time it is is not stated, only
/// that, as every `DateTime<Utc>`, it lies in chrono's range.
#[verifier::external_body]
pub fn now_millis() -> (r: i64)
    ensures
        in_range(r as int),
{
    chrono::Utc::now().timestamp_millis()
}

} // verus!
