//! The mapping between caldir events and Tuta calendar entities: times,
//! recurrence rules in both directions, and whole events.

use vstd::prelude::*;

use crate::entity::{
    AdvancedRule, AdvancedRuleView, RepeatRule, RepeatRuleView, ServerFields, TutaEvent,
    TutaEventView, advanced_view, server_empty,
};
use crate::event::{
    Event, EventTime, EventTimeView, EventView, Recurrence, RecurrenceView, times_view,
};
use crate::order::{is_stable_order, stable_order};
use crate::rrule_laws::{
    lemma_shaped_rrule_round_trip, rrule_shaped, rrule_until, shape_ok, shape_text,
};
use crate::text::{
    append_chars, append_str, chars_eq, chars_eq_str, chars_of, dec_int, decimal_i64, parse_i64,
    parse_i64_spec, string_of, to_ascii_uppercase, upper_seq, split_on, split_chars, pieces_view,
    find_char, find_first, slice_chars, byte_len, byte_len_is, lemma_byte_len_at_least_len,
};
use crate::time::{
    DAY_MS, HOUR_MS, day_of, in_range, millis_in_range, naive_date_parse, naive_datetime_parse,
    spec_date_parse, spec_datetime_parse, spec_tz_known, spec_utc_format, spec_zone_local_earliest,
    zone_offset_ms, spec_zoned_to_utc, time_is_convertible, tz_is_known, utc_format, well_inside,
    zone_local_earliest, zone_offset_seconds, event_time_to_utc, four_digit_year,
};

verus! {

/// Why a mapping failed.
#[derive(Debug, Clone, Copy, PartialEq, Eq)]
pub enum MappingError {
    /// A Tuta timestamp does not fit an `i64`.
    TimestampExceedsI64,
    /// A Tuta timestamp lies outside chrono's range.
    TimestampOutOfRange,
    /// A Tuta time carries a zone that chrono-tz does not know.
    UnknownTimezone,
    /// A Tuta event has no uid.
    MissingUid,
    /// A Tuta repeat rule has a frequency other than 0..=3.
    UnknownFrequency,
    /// A Tuta repeat rule ends after a count but holds none.
    CountWithoutValue,
    /// A Tuta repeat rule ends at a date but holds none.
    UntilWithoutValue,
    /// The end date of a Tuta repeat rule lies outside chrono's range.
    UntilOutOfRange,
    /// A Tuta repeat rule has an end type other than 0..=2.
    UnknownEndType,
    /// A Tuta repeat rule has an advanced rule type other than 0..=8.
    UnknownAdvancedRule,
    /// Tuta cannot store times before 1970.
    BeforeEpoch,
    /// Tuta has no RDATE.
    RdateUnsupported,
    /// An RRULE part has no `=`.
    InvalidRrulePart,
    /// An RRULE frequency that Tuta does not have.
    UnsupportedFrequency,
    /// An RRULE without `FREQ`.
    MissingFrequency,
    /// An RRULE `INTERVAL` that is no `i64`.
    InvalidInterval,
    /// An RRULE `COUNT` that is no `i64`.
    InvalidCount,
    /// An RRULE `UNTIL` that is no date.
    InvalidDateUntil,
    /// An RRULE `UNTIL` that is no UTC time.
    InvalidUtcUntil,
    /// An RRULE `UNTIL` that is no wall-clock time.
    InvalidLocalUntil,
    /// The zone of a recurrence is unknown.
    UnknownRecurrenceTimezone,
    /// A wall-clock `UNTIL` that the recurrence's zone skips.
    LocalUntilInGap,
}

// ------------------------------------------------------------ rule names
/// The RRULE name of a Tuta advanced rule type.
pub open spec fn rule_name(t: int) -> Option<Seq<char>> {
    if t == 0 {
        Some("BYMINUTE"@)
    } else if t == 1 {
        Some("BYHOUR"@)
    } else if t == 2 {
        Some("BYDAY"@)
    } else if t == 3 {
        Some("BYMONTHDAY"@)
    } else if t == 4 {
        Some("BYYEARDAY"@)
    } else if t == 5 {
        Some("BYWEEKNO"@)
    } else if t == 6 {
        Some("BYMONTH"@)
    } else if t == 7 {
        Some("BYSETPOS"@)
    } else if t == 8 {
        Some("WKST"@)
    } else {
        None
    }
}

/// The RRULE name of a Tuta advanced rule type.
pub fn by_rule_name(value: i64) -> (r: Result<String, MappingError>)
    ensures
        match rule_name(value as int) {
            Some(n) => r matches Ok(s) && s@ == n,
            None => r == Err::<String, MappingError>(MappingError::UnknownAdvancedRule),
        },
{
    let s = if value == 0 {
        "BYMINUTE"
    } else if value == 1 {
        "BYHOUR"
    } else if value == 2 {
        "BYDAY"
    } else if value == 3 {
        "BYMONTHDAY"
    } else if value == 4 {
        "BYYEARDAY"
    } else if value == 5 {
        "BYWEEKNO"
    } else if value == 6 {
        "BYMONTH"
    } else if value == 7 {
        "BYSETPOS"
    } else if value == 8 {
        "WKST"
    } else {
        return Err(MappingError::UnknownAdvancedRule);
    };
    Ok(s.to_owned())
}

/// The Tuta advanced rule type of an RRULE name.
pub open spec fn rule_type(name: Seq<char>) -> Option<i64> {
    if name == "BYMINUTE"@ {
        Some(0)
    } else if name == "BYHOUR"@ {
        Some(1)
    } else if name == "BYDAY"@ {
        Some(2)
    } else if name == "BYMONTHDAY"@ {
        Some(3)
    } else if name == "BYYEARDAY"@ {
        Some(4)
    } else if name == "BYWEEKNO"@ {
        Some(5)
    } else if name == "BYMONTH"@ {
        Some(6)
    } else if name == "BYSETPOS"@ {
        Some(7)
    } else if name == "WKST"@ {
        Some(8)
    } else {
        None
    }
}

/// The Tuta advanced rule type of an RRULE name.
pub fn by_rule_type(name: &str) -> (r: Option<i64>)
    ensures
        r == rule_type(name@),
{
    let n = chars_of(name);
    if chars_eq_str(&n, "BYMINUTE") {
        Some(0)
    } else if chars_eq_str(&n, "BYHOUR") {
        Some(1)
    } else if chars_eq_str(&n, "BYDAY") {
        Some(2)
    } else if chars_eq_str(&n, "BYMONTHDAY") {
        Some(3)
    } else if chars_eq_str(&n, "BYYEARDAY") {
        Some(4)
    } else if chars_eq_str(&n, "BYWEEKNO") {
        Some(5)
    } else if chars_eq_str(&n, "BYMONTH") {
        Some(6)
    } else if chars_eq_str(&n, "BYSETPOS") {
        Some(7)
    } else if chars_eq_str(&n, "WKST") {
        Some(8)
    } else {
        None
    }
}

/// The text, or nothing when it is empty.
pub open spec fn non_empty_text(s: Seq<char>) -> Option<Seq<char>> {
    if s.len() == 0 {
        None
    } else {
        Some(s)
    }
}

/// The text as an optional field: none when it is empty.
pub fn non_empty(value: &str) -> (r: Option<String>)
    ensures
        match non_empty_text(value@) {
            Some(s) => r matches Some(v) && v@ == s,
            None => r is None,
        },
{
    if value.is_empty() {
        None
    } else {
        Some(value.to_owned())
    }
}

// ------------------------------------------------------------------ times
/// Whether a Tuta event lasts whole UTC days: it starts and ends at
/// midnight UTC and ends after it starts.
pub open spec fn all_day_spec(e: TutaEventView) -> bool {
    e.start_time % (DAY_MS as u64) == 0 && e.end_time % (DAY_MS as u64) == 0 && e.end_time
        > e.start_time
}

/// Whether a Tuta event lasts whole UTC days.
pub fn is_all_day(event: &TutaEvent) -> (r: bool)
    ensures
        r == all_day_spec(event@),
{
    let day: u64 = 86_400_000;
    event.start_time % day == 0 && event.end_time % day == 0 && event.end_time > event.start_time
}

pub open spec fn opt_zone(z: Option<&str>) -> Option<Seq<char>> {
    match z {
        Some(s) => Some(s@),
        None => None,
    }
}

/// The caldir time of a Tuta timestamp: a date for an all-day event, a
/// wall-clock time in the given zone, or an instant when the zone is
/// absent or `UTC`.
pub open spec fn caldir_time(value: u64, zone: Option<Seq<char>>, all_day: bool) -> Result<
    EventTimeView,
    MappingError,
> {
    if value > i64::MAX {
        Err(MappingError::TimestampExceedsI64)
    } else if !in_range(value as int) {
        Err(MappingError::TimestampOutOfRange)
    } else if all_day {
        Ok(EventTimeView::Date(day_of(value as int) as i32))
    } else {
        match zone {
            Some(z) => if z == "UTC"@ {
                Ok(EventTimeView::DateTimeUtc(value as i64))
            } else if !spec_tz_known(z) {
                Err(MappingError::UnknownTimezone)
            } else {
                Ok(
                    EventTimeView::DateTimeZoned {
                        datetime: (value + zone_offset_ms(z, value as i64)) as i64,
                        tzid: z,
                    },
                )
            },
            None => Ok(EventTimeView::DateTimeUtc(value as i64)),
        }
    }
}

/// Whether the wall-clock reading of a Tuta timestamp in its zone is one
/// that chrono can represent (chrono panics on the others).
pub open spec fn local_reading_fits(value: u64, zone: Option<Seq<char>>, all_day: bool) -> bool {
    (value <= i64::MAX && in_range(value as int) && !all_day && zone is Some && zone->0 != "UTC"@
        && spec_tz_known(zone->0)) ==> in_range(
        value + zone_offset_ms(zone->0, value as i64),
    )
}

pub open spec fn time_result_view(r: Result<EventTime, MappingError>) -> Result<
    EventTimeView,
    MappingError,
> {
    match r {
        Ok(t) => Ok(t@),
        Err(e) => Err(e),
    }
}

/// Converts a Tuta timestamp with its zone into a caldir time.
pub fn from_tuta_time(value: u64, zone: Option<&str>, all_day: bool) -> (r: Result<
    EventTime,
    MappingError,
>)
    requires
        local_reading_fits(value, opt_zone(zone), all_day),
    ensures
        time_result_view(r) == caldir_time(value, opt_zone(zone), all_day),
{
    if value > 9223372036854775807u64 {
        return Err(MappingError::TimestampExceedsI64);
    }
    let ms = value as i64;
    if !millis_in_range(ms) {
        return Err(MappingError::TimestampOutOfRange);
    }
    if all_day {
        return Ok(EventTime::Date((ms / DAY_MS) as i32));
    }
    match zone {
        Some(z) => {
            let zc = chars_of(z);
            if chars_eq_str(&zc, "UTC") {
                Ok(EventTime::DateTimeUtc(ms))
            } else if !tz_is_known(z) {
                Err(MappingError::UnknownTimezone)
            } else {
                let offset = (zone_offset_seconds(z, ms) as i64) * 1000;
                Ok(EventTime::DateTimeZoned { datetime: ms + offset, tzid: z.to_owned() })
            }
        },
        None => Ok(EventTime::DateTimeUtc(ms)),
    }
}

/// The Tuta timestamp of a caldir time, where it does not depend on the
/// machine: midnight UTC of a date, an instant itself, a floating time read
/// as UTC, a zoned time resolved in its known zone.
pub open spec fn tuta_millis_of(t: EventTimeView) -> Option<int> {
    match t {
        EventTimeView::Date(d) => Some(d * DAY_MS),
        EventTimeView::DateTimeUtc(ms) => Some(ms as int),
        EventTimeView::DateTimeFloating(ms) => Some(ms as int),
        EventTimeView::DateTimeZoned { datetime, tzid } => if spec_tz_known(tzid) {
            Some(spec_zoned_to_utc(tzid, datetime) as int)
        } else {
            None
        },
    }
}

/// The zone that Tuta stores with a caldir time.
pub open spec fn tuta_zone_of(t: EventTimeView) -> Option<Seq<char>> {
    match t {
        EventTimeView::Date(_) => Some("UTC"@),
        EventTimeView::DateTimeUtc(_) => Some("UTC"@),
        EventTimeView::DateTimeFloating(_) => None,
        EventTimeView::DateTimeZoned { tzid, .. } => Some(tzid),
    }
}

pub open spec fn opt_string(o: Option<String>) -> Option<Seq<char>> {
    match o {
        Some(s) => Some(s@),
        None => None,
    }
}

/// What converting a caldir time for Tuta may give: the timestamp and zone,
/// or the error for a time before 1970. Where the timestamp depends on the
/// machine's zone, any timestamp may come back.
pub open spec fn tuta_time_outcome(
    t: EventTimeView,
    r: Result<(u64, Option<String>), MappingError>,
) -> bool {
    match tuta_millis_of(t) {
        Some(ms) => if ms < 0 {
            r == Err::<(u64, Option<String>), MappingError>(MappingError::BeforeEpoch)
        } else {
            r matches Ok((v, z)) && v == ms && opt_string(z) == tuta_zone_of(t)
        },
        None => match r {
            Ok((_, z)) => opt_string(z) == tuta_zone_of(t),
            Err(e) => e == MappingError::BeforeEpoch,
        },
    }
}

/// Whether a caldir time is one that chrono holds, as every caldir time
/// is, and, where it is zoned and chrono resolves it in its zone, lies
/// inside chrono's range.
pub open spec fn tuta_convertible(t: EventTimeView) -> bool {
    match t {
        EventTimeView::Date(d) => crate::time::MIN_DAY <= d <= crate::time::MAX_DAY,
        EventTimeView::DateTimeUtc(ms) => in_range(ms as int),
        EventTimeView::DateTimeFloating(ms) => in_range(ms as int),
        EventTimeView::DateTimeZoned { datetime, .. } => well_inside(datetime as int),
    }
}

/// Converts a caldir time into a Tuta timestamp and zone.
pub fn to_tuta_time(value: &EventTime) -> (r: Result<(u64, Option<String>), MappingError>)
    requires
        tuta_convertible(value@),
    ensures
        tuta_time_outcome(value@, r),
        r matches Ok((v, _)) ==> v <= crate::time::MAX_MS,
{
    let (millis, zone): (i64, Option<String>) = match value {
        EventTime::Date(d) => ((*d as i64) * DAY_MS, Some("UTC".to_owned())),
        EventTime::DateTimeUtc(ms) => (*ms, Some("UTC".to_owned())),
        EventTime::DateTimeFloating(ms) => (*ms, None),
        EventTime::DateTimeZoned { tzid, .. } => (event_time_to_utc(value), Some(tzid.clone())),
    };
    if millis < 0 {
        return Err(MappingError::BeforeEpoch);
    }
    Ok((millis as u64, zone))
}


// ------------------------------------------------- Tuta rule to RRULE text
/// The RRULE name of a Tuta frequency.
pub open spec fn frequency_name(f: int) -> Option<Seq<char>> {
    if f == 0 {
        Some("DAILY"@)
    } else if f == 1 {
        Some("WEEKLY"@)
    } else if f == 2 {
        Some("MONTHLY"@)
    } else if f == 3 {
        Some("YEARLY"@)
    } else {
        None
    }
}

/// The values joined by the separator.
pub open spec fn join_with(vals: Seq<Seq<char>>, sep: char) -> Seq<char>
    decreases vals.len(),
{
    if vals.len() == 0 {
        seq![]
    } else if vals.len() == 1 {
        vals[0]
    } else {
        join_with(vals.drop_last(), sep).push(sep) + vals.last()
    }
}

/// The values of the advanced rules of type `t`, in their order.
pub open spec fn values_of_type(rules: Seq<AdvancedRuleView>, t: int) -> Seq<Seq<char>>
    decreases rules.len(),
{
    if rules.len() == 0 {
        seq![]
    } else {
        let rest = values_of_type(rules.drop_last(), t);
        if rules.last().rule_type == t {
            rest.push(rules.last().interval)
        } else {
            rest
        }
    }
}

/// The `;NAME=v1,v2` part for advanced rule type `t`, empty when there are
/// no rules of that type.
pub open spec fn advanced_piece(rules: Seq<AdvancedRuleView>, t: int) -> Seq<char> {
    let vals = values_of_type(rules, t);
    if vals.len() == 0 {
        seq![]
    } else {
        seq![';'] + rule_name(t)->0 + seq!['='] + join_with(vals, ',')
    }
}

/// The advanced parts for the types below `k`, in ascending type order.
pub open spec fn advanced_upto(rules: Seq<AdvancedRuleView>, k: int) -> Seq<char>
    decreases k,
{
    if k <= 0 {
        seq![]
    } else {
        advanced_upto(rules, k - 1) + advanced_piece(rules, k - 1)
    }
}

/// Whether every advanced rule has a type that RRULE can name.
pub open spec fn advanced_types_known(rules: Seq<AdvancedRuleView>) -> bool {
    forall|i: int| 0 <= i < rules.len() ==> 0 <= #[trigger] rules[i].rule_type <= 8
}

/// The `UNTIL` of a Tuta rule is exclusive; RRULE's is inclusive, one day
/// earlier for all-day events and one second earlier otherwise.
pub open spec fn until_step(all_day: bool) -> int {
    if all_day {
        DAY_MS as int
    } else {
        1000
    }
}

pub open spec fn until_format(all_day: bool) -> Seq<char> {
    if all_day {
        "%Y%m%d"@
    } else {
        "%Y%m%dT%H%M%SZ"@
    }
}

/// The end part of the RRULE (`;COUNT=n`, `;UNTIL=t` or nothing).
pub open spec fn end_text(r: RepeatRuleView, all_day: bool) -> Result<Seq<char>, MappingError> {
    if r.end_type == 0 {
        Ok(seq![])
    } else if r.end_type == 1 {
        match r.end_value {
            None => Err(MappingError::CountWithoutValue),
            Some(v) => Ok(";COUNT="@ + dec_int(v as int)),
        }
    } else if r.end_type == 2 {
        match r.end_value {
            None => Err(MappingError::UntilWithoutValue),
            Some(v) => if !in_range(v as int) {
                Err(MappingError::UntilOutOfRange)
            } else {
                Ok(
                    ";UNTIL="@ + spec_utc_format(
                        (v - until_step(all_day)) as i64,
                        until_format(all_day),
                    ),
                )
            },
        }
    } else {
        Err(MappingError::UnknownEndType)
    }
}

/// Whether the inclusive `UNTIL` of a rule lies in chrono's range (chrono
/// panics otherwise).
pub open spec fn until_fits(r: RepeatRuleView, all_day: bool) -> bool {
    (r.end_type == 2 && r.end_value is Some && in_range(r.end_value->0 as int)) ==> in_range(
        r.end_value->0 - until_step(all_day),
    )
}

/// Whether a rule ends at an instant in chrono's range whose inclusive
/// `UNTIL` lies in a year from 0 to 9999.
pub open spec fn until_writable(r: RepeatRuleView, all_day: bool) -> bool {
    &&& r.end_type == 2
    &&& r.end_value is Some
    &&& in_range(r.end_value->0 as int)
    &&& four_digit_year(r.end_value->0 - until_step(all_day))
}

/// The `UNTIL` value that a rule's end is written as.
pub open spec fn until_text(r: RepeatRuleView, all_day: bool) -> Seq<char> {
    spec_utc_format((r.end_value->0 - until_step(all_day)) as i64, until_format(all_day))
}

/// The end that the written `UNTIL` reads back as: the rule's end, down to
/// the start of its day (all-day events) or of its second.
pub open spec fn until_back(r: RepeatRuleView, all_day: bool) -> int {
    (r.end_value->0 as int / until_step(all_day)) * until_step(all_day)
}

/// Whether the `UNTIL` value written for a rule holds no `;`, reads back
/// (in any zone) as `until_back`, and is what that end is written as.
pub open spec fn until_reads_back(r: RepeatRuleView, all_day: bool) -> bool {
    let u = until_text(r, all_day);
    &&& forall|i: int| 0 <= i < u.len() ==> #[trigger] u[i] != ';'
    &&& forall|tz: Seq<char>|
        #[trigger] until_millis(u, tz, all_day) == Ok::<i64, MappingError>(
            until_back(r, all_day) as i64,
        )
    &&& spec_utc_format((until_back(r, all_day) - until_step(all_day)) as i64, until_format(all_day))
        == u
}

/// The RRULE of a Tuta repeat rule.
pub open spec fn rrule_text(r: RepeatRuleView, all_day: bool) -> Result<Seq<char>, MappingError> {
    match frequency_name(r.frequency as int) {
        None => Err(MappingError::UnknownFrequency),
        Some(f) => match end_text(r, all_day) {
            Err(e) => Err(e),
            Ok(end) => if !advanced_types_known(r.advanced_rules) {
                Err(MappingError::UnknownAdvancedRule)
            } else {
                Ok(
                    "FREQ="@ + f + ";INTERVAL="@ + dec_int(
                        if r.interval < 1 {
                            1
                        } else {
                            r.interval as int
                        },
                    ) + end + advanced_upto(r.advanced_rules, 9),
                )
            },
        },
    }
}

/// The zone that a repeat rule gives its excluded dates.
pub open spec fn rule_zone(r: RepeatRuleView) -> Option<Seq<char>> {
    if r.time_zone.len() == 0 {
        None
    } else {
        Some(r.time_zone)
    }
}

/// The first error among the conversions of the dates, if any.
pub open spec fn first_time_error(
    dates: Seq<u64>,
    zone: Option<Seq<char>>,
    all_day: bool,
) -> Option<MappingError>
    decreases dates.len(),
{
    if dates.len() == 0 {
        None
    } else {
        match first_time_error(dates.drop_last(), zone, all_day) {
            Some(e) => Some(e),
            None => match caldir_time(dates.last(), zone, all_day) {
                Err(e) => Some(e),
                Ok(_) => None,
            },
        }
    }
}

/// The caldir times of the dates, where they all convert.
pub open spec fn converted_times(dates: Seq<u64>, zone: Option<Seq<char>>, all_day: bool) -> Seq<
    EventTimeView,
> {
    Seq::new(dates.len(), |i: int| caldir_time(dates[i], zone, all_day)->Ok_0)
}

/// The instant of a time where it does not depend on the machine.
pub open spec fn known_instant(t: EventTimeView) -> Option<int> {
    match t {
        EventTimeView::DateTimeUtc(ms) => Some(ms as int),
        EventTimeView::DateTimeZoned { datetime, tzid } => if spec_tz_known(tzid) {
            Some(spec_zoned_to_utc(tzid, datetime) as int)
        } else {
            None
        },
        _ => None,
    }
}

/// `sorted` is `times` sorted stably by instant; where an instant depends
/// on the machine's zone, any instant may have been used.
pub open spec fn sorted_by_instant(times: Seq<EventTimeView>, sorted: Seq<EventTimeView>) -> bool {
    exists|keys: Seq<i128>, perm: Seq<usize>|
        #![trigger is_stable_order(keys, perm)]
        keys.len() == times.len() && (forall|i: int|
            0 <= i < times.len() && known_instant(times[i]) is Some ==> keys[i]
                == known_instant(times[i])->0) && is_stable_order(keys, perm) && sorted
            == Seq::new(perm.len(), |i: int| times[perm[i] as int])
    }

/// Whether the excluded dates of a rule convert without leaving chrono's
/// range.
pub open spec fn exdates_fit(r: RepeatRuleView, all_day: bool) -> bool {
    forall|i: int|
        0 <= i < r.excluded_dates.len() ==> {
            &&& local_reading_fits(#[trigger] r.excluded_dates[i], rule_zone(r), all_day)
            &&& (caldir_time(r.excluded_dates[i], rule_zone(r), all_day) matches Ok(t)
                ==> time_is_convertible(t))
        }
}

/// A four-digit-year `UNTIL` text with the shape and reading that chrono
/// gives it reads back as `until_back`.
proof fn lemma_until_reads_back(r: RepeatRuleView, all_day: bool, u: Seq<char>)
    requires
        until_writable(r, all_day),
        u == until_text(r, all_day),
        u == spec_utc_format(
            (((r.end_value->0 as int - until_step(all_day)) / until_step(all_day)) * until_step(
                all_day,
            )) as i64,
            until_format(all_day),
        ),
        all_day ==> u.len() == 8 && crate::text::all_digits(u) && spec_date_parse(
            u,
            "%Y%m%d"@,
        ) == Some(((r.end_value->0 as int - DAY_MS) / DAY_MS as int) as i32),
        !all_day ==> crate::time::utc_text_shape(u) && spec_datetime_parse(
            u,
            "%Y%m%dT%H%M%SZ"@,
        ) == Some(((r.end_value->0 as int - 1000) / 1000) as i64),
    ensures
        until_reads_back(r, all_day),
{
    let v = r.end_value->0 as int;
    let step = until_step(all_day);
    vstd::arithmetic::div_mod::lemma_fundamental_div_mod(v, step);
    assert(v - step == (v / step - 1) * step + v % step) by (nonlinear_arith)
        requires
            v == step * (v / step) + v % step,
    ;
    vstd::arithmetic::div_mod::lemma_fundamental_div_mod_converse(
        v - step,
        step,
        v / step - 1,
        v % step,
    );
    assert(((v - step) / step) * step == (v / step) * step - step) by (nonlinear_arith)
        requires
            (v - step) / step == v / step - 1,
    ;
    assert forall|i: int| 0 <= i < u.len() implies #[trigger] u[i] != ';' by {
        if !all_day {
            assert(i == 8 || i == 15 || crate::text::is_digit(u[i]));
        }
    }
    if !all_day {
        lemma_byte_len_at_least_len(u);
        assert(u.last() == 'Z');
    }
    assert forall|tz: Seq<char>|
        #[trigger] until_millis(u, tz, all_day) == Ok::<i64, MappingError>(
            until_back(r, all_day) as i64,
        ) by {}
}

/// The RRULE text of a Tuta rule, checked as the caldir recurrence is built.
fn rrule_of(rule: &RepeatRule, all_day: bool) -> (r: Result<Vec<char>, MappingError>)
    requires
        until_fits(rule@, all_day),
    ensures
        match rrule_text(rule@, all_day) {
            Ok(t) => r matches Ok(v) && v@ == t,
            Err(e) => r == Err::<Vec<char>, MappingError>(e),
        },
        r is Ok && until_writable(rule@, all_day) ==> until_reads_back(rule@, all_day),
{
    let freq = if rule.frequency == 0 {
        "DAILY"
    } else if rule.frequency == 1 {
        "WEEKLY"
    } else if rule.frequency == 2 {
        "MONTHLY"
    } else if rule.frequency == 3 {
        "YEARLY"
    } else {
        return Err(MappingError::UnknownFrequency);
    };
    let mut out = chars_of("FREQ=");
    append_str(&mut out, freq);
    append_str(&mut out, ";INTERVAL=");
    let interval = if rule.interval < 1 {
        1
    } else {
        rule.interval
    };
    let iv = decimal_i64(interval);
    append_chars(&mut out, &iv);
    let ghost head = out@;
    if rule.end_type == 0 {
    } else if rule.end_type == 1 {
        match rule.end_value {
            None => {
                return Err(MappingError::CountWithoutValue);
            },
            Some(v) => {
                append_str(&mut out, ";COUNT=");
                let d = decimal_i64(v);
                append_chars(&mut out, &d);
            },
        }
    } else if rule.end_type == 2 {
        match rule.end_value {
            None => {
                return Err(MappingError::UntilWithoutValue);
            },
            Some(v) => {
                if !millis_in_range(v) {
                    return Err(MappingError::UntilOutOfRange);
                }
                let text = if all_day {
                    utc_format(v - DAY_MS, "%Y%m%d")
                } else {
                    utc_format(v - 1000, "%Y%m%dT%H%M%SZ")
                };
                proof {
                    if until_writable(rule@, all_day) {
                        lemma_until_reads_back(rule@, all_day, text@);
                    }
                }
                append_str(&mut out, ";UNTIL=");
                append_str(&mut out, text.as_str());
            },
        }
    } else {
        return Err(MappingError::UnknownEndType);
    }
    assert(frequency_name(rule.frequency as int) is Some);
    assert(end_text(rule@, all_day) is Ok);
    assert(out@ == head + end_text(rule@, all_day)->Ok_0);
    let ghost rules = rule@.advanced_rules;
    for i in 0..rule.advanced_rules.len()
        invariant
            rules == rule@.advanced_rules,
            frequency_name(rule@.frequency as int) is Some,
            end_text(rule@, all_day) is Ok,
            forall|j: int| 0 <= j < i ==> 0 <= #[trigger] rules[j].rule_type <= 8,
    {
        let t = rule.advanced_rules[i].rule_type;
        assert(rules[i as int].rule_type == t);
        if t < 0 || t > 8 {
            assert(!(0 <= rules[i as int].rule_type <= 8));
            assert(!advanced_types_known(rules));
            return Err(MappingError::UnknownAdvancedRule);
        }
    }
    let ghost before = out@;
    for t in 0..9
        invariant
            rules == rule@.advanced_rules,
            out@ == before + advanced_upto(rules, t as int),
    {
        let vals = values_for_type(&rule.advanced_rules, t as i64);
        if vals.len() > 0 {
            out.push(';');
            let name = by_rule_name(t as i64);
            match name {
                Ok(n) => append_str(&mut out, n.as_str()),
                Err(_) => {},
            }
            out.push('=');
            let joined = join_values(&vals, ',');
            append_chars(&mut out, &joined);
        }
        assert(out@ =~= before + advanced_upto(rules, t as int + 1));
    }
    Ok(out)
}

/// The values of the advanced rules of type `t`.
fn values_for_type(rules: &Vec<AdvancedRule>, t: i64) -> (r: Vec<Vec<char>>)
    ensures
        r@.map_values(|v: Vec<char>| v@) == values_of_type(advanced_view(rules@), t as int),
{
    let ghost all = advanced_view(rules@);
    let mut r: Vec<Vec<char>> = Vec::new();
    for i in 0..rules.len()
        invariant
            all == advanced_view(rules@),
            r@.map_values(|v: Vec<char>| v@) =~= values_of_type(all.take(i as int), t as int),
    {
        assert(all.take(i + 1).drop_last() =~= all.take(i as int));
        assert(all.take(i + 1).last() == rules@[i as int]@);
        if rules[i].rule_type == t {
            r.push(chars_of(rules[i].interval.as_str()));
        }
    }
    assert(all.take(rules.len() as int) =~= all);
    r
}

/// The values joined by the separator.
fn join_values(vals: &Vec<Vec<char>>, sep: char) -> (r: Vec<char>)
    ensures
        r@ == join_with(vals@.map_values(|v: Vec<char>| v@), sep),
{
    let ghost vs = vals@.map_values(|v: Vec<char>| v@);
    let mut r: Vec<char> = Vec::new();
    for i in 0..vals.len()
        invariant
            vs == vals@.map_values(|v: Vec<char>| v@),
            r@ == join_with(vs.take(i as int), sep),
    {
        assert(vs.take(i + 1).drop_last() =~= vs.take(i as int));
        assert(vs[i as int] == vals@[i as int]@);
        if i > 0 {
            r.push(sep);
        } else {
            assert(r@ =~= seq![]);
        }
        append_chars(&mut r, &vals[i]);
        assert(r@ =~= join_with(vs.take(i + 1), sep));
    }
    assert(vs.take(vals.len() as int) =~= vs);
    r
}


/// Converts the excluded dates of a rule, stopping at the first that fails.
fn excluded_times(rule: &RepeatRule, all_day: bool) -> (r: Result<Vec<EventTime>, MappingError>)
    requires
        exdates_fit(rule@, all_day),
    ensures
        match first_time_error(rule@.excluded_dates, rule_zone(rule@), all_day) {
            Some(e) => r == Err::<Vec<EventTime>, MappingError>(e),
            None => r matches Ok(v) && times_view(v@) == converted_times(
                rule@.excluded_dates,
                rule_zone(rule@),
                all_day,
            ),
        },
{
    let zone: Option<&str> = if rule.time_zone.as_str().is_empty() {
        None
    } else {
        Some(rule.time_zone.as_str())
    };
    assert(opt_zone(zone) == rule_zone(rule@));
    let ghost dates = rule@.excluded_dates;
    let mut out: Vec<EventTime> = Vec::new();
    for i in 0..rule.excluded_dates.len()
        invariant
            dates == rule@.excluded_dates,
            opt_zone(zone) == rule_zone(rule@),
            exdates_fit(rule@, all_day),
            first_time_error(dates.take(i as int), rule_zone(rule@), all_day) is None,
            times_view(out@) =~= converted_times(dates.take(i as int), rule_zone(rule@), all_day),
    {
        assert(dates.take(i + 1).drop_last() =~= dates.take(i as int));
        assert(local_reading_fits(dates[i as int], rule_zone(rule@), all_day));
        match from_tuta_time(rule.excluded_dates[i], zone, all_day) {
            Ok(t) => {
                let ghost prev = times_view(out@);
                out.push(t);
                proof {
                    let c1 = converted_times(dates.take(i + 1), rule_zone(rule@), all_day);
                    let c0 = converted_times(dates.take(i as int), rule_zone(rule@), all_day);
                    assert forall|j: int| 0 <= j < i implies c1[j] == c0[j] by {
                        assert(dates.take(i + 1)[j] == dates.take(i as int)[j]);
                    }
                    assert(times_view(out@) =~= prev.push(t@));
                    assert(c1 =~= c0.push(t@));
                }
            },
            Err(e) => {
                proof { lemma_first_time_error_prefix(dates, rule_zone(rule@), all_day, i + 1); }
                return Err(e);
            },
        }
    }
    assert(dates.take(dates.len() as int) =~= dates);
    Ok(out)
}

/// An error found in a prefix is the first error of the whole list.
proof fn lemma_first_time_error_prefix(
    dates: Seq<u64>,
    zone: Option<Seq<char>>,
    all_day: bool,
    k: int,
)
    requires
        0 <= k <= dates.len(),
        first_time_error(dates.take(k), zone, all_day) is Some,
    ensures
        first_time_error(dates, zone, all_day) == first_time_error(dates.take(k), zone, all_day),
    decreases dates.len() - k,
{
    if k < dates.len() {
        assert(dates.take(k + 1).drop_last() =~= dates.take(k));
        lemma_first_time_error_prefix(dates, zone, all_day, k + 1);
    } else {
        assert(dates.take(k) =~= dates);
    }
}

/// Without a first error, every date converts.
proof fn lemma_no_time_error(dates: Seq<u64>, zone: Option<Seq<char>>, all_day: bool, i: int)
    requires
        0 <= i < dates.len(),
        first_time_error(dates, zone, all_day) is None,
    ensures
        caldir_time(dates[i], zone, all_day) is Ok,
    decreases dates.len(),
{
    if i < dates.len() - 1 {
        assert(dates.drop_last()[i] == dates[i]);
        lemma_no_time_error(dates.drop_last(), zone, all_day, i);
    }
}

/// Sorts times stably by their instants as caldir computes them.
fn sort_by_instant(times: &Vec<EventTime>) -> (r: Vec<EventTime>)
    requires
        forall|i: int| 0 <= i < times@.len() ==> time_is_convertible(#[trigger] times@[i]@),
    ensures
        sorted_by_instant(times_view(times@), times_view(r@)),
{
    let ghost tv = times_view(times@);
    let mut keys: Vec<i128> = Vec::new();
    for i in 0..times.len()
        invariant
            tv == times_view(times@),
            forall|j: int| 0 <= j < times@.len() ==> time_is_convertible(#[trigger] times@[j]@),
            keys@.len() == i,
            forall|j: int|
                0 <= j < i && known_instant(tv[j]) is Some ==> keys@[j] == known_instant(
                    tv[j],
                )->0,
    {
        let u = event_time_to_utc(&times[i]);
        keys.push(u as i128);
    }
    let perm = stable_order(&keys);
    let mut r: Vec<EventTime> = Vec::new();
    for i in 0..perm.len()
        invariant
            tv == times_view(times@),
            is_stable_order(keys@, perm@),
            keys@.len() == times@.len(),
            times_view(r@) =~= Seq::new(i as nat, |k: int| tv[perm@[k] as int]),
    {
        assert(perm@[i as int] < times@.len());
        assert(tv[perm@[i as int] as int] == times@[perm@[i as int] as int]@);
        let ghost prev = times_view(r@);
        r.push(times[perm[i]].duplicate());
        assert(times_view(r@) =~= prev.push(tv[perm@[i as int] as int]));
    }
    assert(times_view(r@) =~= Seq::new(perm@.len(), |k: int| tv[perm@[k] as int]));
    assert(is_stable_order(keys@, perm@));
    r
}

/// What building the caldir recurrence of a Tuta rule gives: the RRULE
/// text and the excluded dates, converted and sorted by instant, or the
/// first error.
pub open spec fn recurrence_outcome(
    rule: RepeatRuleView,
    all_day: bool,
    r: Result<RecurrenceView, MappingError>,
) -> bool {
    match rrule_text(rule, all_day) {
        Err(e) => r == Err::<RecurrenceView, MappingError>(e),
        Ok(text) => match first_time_error(rule.excluded_dates, rule_zone(rule), all_day) {
            Some(e) => r == Err::<RecurrenceView, MappingError>(e),
            None => r matches Ok(rec) && rec.rrule == text && rec.rdates.len() == 0
                && sorted_by_instant(
                converted_times(rule.excluded_dates, rule_zone(rule), all_day),
                rec.exdates,
            ),
        },
    }
}

/// Builds the caldir recurrence of a Tuta repeat rule.
pub fn recurrence_from_tuta(rule: &RepeatRule, all_day: bool) -> (r: Result<
    Recurrence,
    MappingError,
>)
    requires
        until_fits(rule@, all_day),
        exdates_fit(rule@, all_day),
    ensures
        recurrence_outcome(
            rule@,
            all_day,
            match r {
                Ok(rec) => Ok(rec@),
                Err(e) => Err(e),
            },
        ),
        r is Ok && until_writable(rule@, all_day) ==> until_reads_back(rule@, all_day),
{
    let text = match rrule_of(rule, all_day) {
        Ok(t) => t,
        Err(e) => {
            return Err(e);
        },
    };
    let times = match excluded_times(rule, all_day) {
        Ok(v) => v,
        Err(e) => {
            return Err(e);
        },
    };
    assert(first_time_error(rule@.excluded_dates, rule_zone(rule@), all_day) is None);
    assert(times_view(times@).len() == times@.len());
    assert(times@.len() == rule@.excluded_dates.len());
    assert forall|i: int| 0 <= i < times@.len() implies time_is_convertible(
        #[trigger] times@[i]@,
    ) by {
        assert(times_view(times@)[i] == times@[i]@);
        lemma_no_time_error(rule@.excluded_dates, rule_zone(rule@), all_day, i);
        assert(rule@.excluded_dates[i] == rule@.excluded_dates[i]);
    }
    let exdates = sort_by_instant(&times);
    let rec = Recurrence { rrule: string_of(&text), exdates, rdates: Vec::new() };
    assert(rec@.rdates =~= Seq::<EventTimeView>::empty());
    Ok(rec)
}


// ------------------------------------------------- RRULE text to Tuta rule
/// The `KEY=value` parts of an RRULE, keys in upper case; none when a part
/// has no `=`.
pub open spec fn parse_parts(pieces: Seq<Seq<char>>) -> Option<Seq<(Seq<char>, Seq<char>)>>
    decreases pieces.len(),
{
    if pieces.len() == 0 {
        Some(seq![])
    } else {
        match parse_parts(pieces.drop_last()) {
            None => None,
            Some(ps) => match find_char(pieces.last(), '=') {
                None => None,
                Some(i) => Some(
                    ps.push((upper_seq(pieces.last().take(i)), pieces.last().skip(i + 1))),
                ),
            },
        }
    }
}

pub open spec fn rrule_parts(rrule: Seq<char>) -> Option<Seq<(Seq<char>, Seq<char>)>> {
    parse_parts(split_on(rrule, ';'))
}

/// The value of the last part with the key.
pub open spec fn lookup(ps: Seq<(Seq<char>, Seq<char>)>, key: Seq<char>) -> Option<Seq<char>>
    decreases ps.len(),
{
    if ps.len() == 0 {
        None
    } else if ps.last().0 == key {
        Some(ps.last().1)
    } else {
        lookup(ps.drop_last(), key)
    }
}

/// The Tuta frequency of the RRULE's `FREQ`.
pub open spec fn frequency_of(ps: Seq<(Seq<char>, Seq<char>)>) -> Result<i64, MappingError> {
    match lookup(ps, "FREQ"@) {
        None => Err(MappingError::MissingFrequency),
        Some(v) => if v == "DAILY"@ {
            Ok(0)
        } else if v == "WEEKLY"@ {
            Ok(1)
        } else if v == "MONTHLY"@ {
            Ok(2)
        } else if v == "YEARLY"@ {
            Ok(3)
        } else {
            Err(MappingError::UnsupportedFrequency)
        },
    }
}

/// The RRULE's `INTERVAL`, 1 when absent.
pub open spec fn interval_of(ps: Seq<(Seq<char>, Seq<char>)>) -> Result<i64, MappingError> {
    match lookup(ps, "INTERVAL"@) {
        None => Ok(1),
        Some(v) => match parse_i64_spec(v) {
            None => Err(MappingError::InvalidInterval),
            Some(n) => Ok(n),
        },
    }
}

/// The exclusive Tuta end of an RRULE `UNTIL` value: the day after a date,
/// the second after a UTC time, the second after a wall-clock time read in
/// the recurrence's zone.
pub open spec fn until_millis(u: Seq<char>, tz: Seq<char>, all_day: bool) -> Result<
    i64,
    MappingError,
> {
    if all_day || byte_len(u) == 8 {
        match spec_date_parse(u, "%Y%m%d"@) {
            None => Err(MappingError::InvalidDateUntil),
            Some(d) => Ok((d * DAY_MS + DAY_MS) as i64),
        }
    } else if u.len() > 0 && u.last() == 'Z' {
        match spec_datetime_parse(u, "%Y%m%dT%H%M%SZ"@) {
            None => Err(MappingError::InvalidUtcUntil),
            Some(secs) => Ok((secs * 1000 + 1000) as i64),
        }
    } else {
        match spec_datetime_parse(u, "%Y%m%dT%H%M%S"@) {
            None => Err(MappingError::InvalidLocalUntil),
            Some(l) => if !spec_tz_known(tz) {
                Err(MappingError::UnknownRecurrenceTimezone)
            } else {
                match spec_zone_local_earliest(tz, (l * 1000) as i64) {
                    None => Err(MappingError::LocalUntilInGap),
                    Some(ms) => Ok((ms + 1000) as i64),
                }
            },
        }
    }
}

/// Whether reading the `UNTIL` value stays in chrono's range (chrono
/// panics when the end moves out of it).
pub open spec fn until_in_range(u: Seq<char>, tz: Seq<char>, all_day: bool) -> bool {
    if all_day || byte_len(u) == 8 {
        spec_date_parse(u, "%Y%m%d"@) matches Some(d) ==> in_range(d * DAY_MS + DAY_MS)
    } else if u.len() > 0 && u.last() == 'Z' {
        spec_datetime_parse(u, "%Y%m%dT%H%M%SZ"@) matches Some(secs) ==> in_range(secs * 1000 + 1000)
    } else {
        spec_datetime_parse(u, "%Y%m%dT%H%M%S"@) matches Some(l) ==> (spec_tz_known(tz) ==> (
        well_inside(l * 1000) && (spec_zone_local_earliest(tz, (l * 1000) as i64) matches Some(
            ms,
        ) ==> in_range(ms + 1000))))
    }
}

/// Whether an `UNTIL` value has the shape that the provider writes: eight
/// digits for all-day events, else `YYYYMMDDTHHMMSSZ` without a leap
/// second.
pub open spec fn until_shaped(u: Seq<char>, all_day: bool) -> bool {
    if all_day {
        u.len() == 8 && crate::text::all_digits(u)
    } else {
        crate::time::utc_text_shape(u) && !(u[13] == '6' && u[14] == '0')
    }
}

/// Whether the exclusive end `e` is the start of a day (all-day events) or
/// of a second and is written back as the `UNTIL` value `u`, with an
/// inclusive end in a year from 0 to 9999.
pub open spec fn until_echoes(u: Seq<char>, all_day: bool, e: int) -> bool {
    &&& e % until_step(all_day) == 0
    &&& four_digit_year(e - until_step(all_day))
    &&& spec_utc_format((e - until_step(all_day)) as i64, until_format(all_day)) == u
}

/// Converts an RRULE `UNTIL` value into Tuta's exclusive end.
pub fn parse_until(value: &str, timezone: &str, all_day: bool) -> (r: Result<i64, MappingError>)
    requires
        until_in_range(value@, timezone@, all_day),
    ensures
        r == until_millis(value@, timezone@, all_day),
        r matches Ok(e) ==> (until_shaped(value@, all_day) ==> until_echoes(value@, all_day, e as int)),
{
    let v = chars_of(value);
    proof {
        lemma_byte_len_at_least_len(value@);
    }
    if all_day || byte_len_is(&v, 0, 8) {
        assert(v@.skip(0) =~= v@);
        match naive_date_parse(value, "%Y%m%d") {
            None => Err(MappingError::InvalidDateUntil),
            Some(d) => Ok((d as i64) * DAY_MS + DAY_MS),
        }
    } else {
        assert(v@.skip(0) =~= v@);
        if v.len() > 0 && v[v.len() - 1] == 'Z' {
            match naive_datetime_parse(value, "%Y%m%dT%H%M%SZ") {
                None => Err(MappingError::InvalidUtcUntil),
                Some(secs) => Ok(secs * 1000 + 1000),
            }
        } else {
            match naive_datetime_parse(value, "%Y%m%dT%H%M%S") {
                None => Err(MappingError::InvalidLocalUntil),
                Some(l) => {
                    if !tz_is_known(timezone) {
                        return Err(MappingError::UnknownRecurrenceTimezone);
                    }
                    match zone_local_earliest(timezone, l * 1000) {
                        None => Err(MappingError::LocalUntilInGap),
                        Some(ms) => Ok(ms + 1000),
                    }
                },
            }
        }
    }
}

/// The Tuta end type and value of the RRULE: a `COUNT`, else an `UNTIL`,
/// else none.
pub open spec fn end_of(ps: Seq<(Seq<char>, Seq<char>)>, tz: Seq<char>, all_day: bool) -> Result<
    (i64, Option<i64>),
    MappingError,
> {
    match lookup(ps, "COUNT"@) {
        Some(c) => match parse_i64_spec(c) {
            None => Err(MappingError::InvalidCount),
            Some(n) => Ok((1, Some(n))),
        },
        None => match lookup(ps, "UNTIL"@) {
            Some(u) => match until_millis(u, tz, all_day) {
                Err(e) => Err(e),
                Ok(ms) => Ok((2, Some(ms))),
            },
            None => Ok((0, None)),
        },
    }
}

/// The names of the advanced rules, in the order of their keys' bytes.
pub open spec fn sorted_rule_name(k: int) -> Seq<char> {
    if k == 0 {
        "BYDAY"@
    } else if k == 1 {
        "BYHOUR"@
    } else if k == 2 {
        "BYMINUTE"@
    } else if k == 3 {
        "BYMONTH"@
    } else if k == 4 {
        "BYMONTHDAY"@
    } else if k == 5 {
        "BYSETPOS"@
    } else if k == 6 {
        "BYWEEKNO"@
    } else if k == 7 {
        "BYYEARDAY"@
    } else {
        "WKST"@
    }
}

/// The non-empty pieces, as advanced rules of type `t`.
pub open spec fn rules_from_pieces(pieces: Seq<Seq<char>>, t: i64) -> Seq<AdvancedRuleView>
    decreases pieces.len(),
{
    if pieces.len() == 0 {
        seq![]
    } else {
        let rest = rules_from_pieces(pieces.drop_last(), t);
        if pieces.last().len() == 0 {
            rest
        } else {
            rest.push(AdvancedRuleView { rule_type: t, interval: pieces.last() })
        }
    }
}

/// The advanced rules of the `k` first names in key order.
pub open spec fn advanced_of(ps: Seq<(Seq<char>, Seq<char>)>, k: int) -> Seq<AdvancedRuleView>
    decreases k,
{
    if k <= 0 {
        seq![]
    } else {
        let name = sorted_rule_name(k - 1);
        advanced_of(ps, k - 1) + match lookup(ps, name) {
            Some(v) => rules_from_pieces(split_on(v, ','), rule_type(name)->0),
            None => seq![],
        }
    }
}

/// What an RRULE becomes in Tuta, apart from the excluded dates: frequency,
/// interval, end type and value, advanced rules.
pub open spec fn rule_core(rrule: Seq<char>, tz: Seq<char>, all_day: bool) -> Result<
    (i64, i64, i64, Option<i64>, Seq<AdvancedRuleView>),
    MappingError,
> {
    match rrule_parts(rrule) {
        None => Err(MappingError::InvalidRrulePart),
        Some(ps) => match frequency_of(ps) {
            Err(e) => Err(e),
            Ok(f) => match interval_of(ps) {
                Err(e) => Err(e),
                Ok(i) => match end_of(ps, tz, all_day) {
                    Err(e) => Err(e),
                    Ok((et, ev)) => Ok((f, i, et, ev, advanced_of(ps, 9))),
                },
            },
        },
    }
}

/// Whether the RRULE's `UNTIL`, when it is read, stays in chrono's range.
pub open spec fn rrule_until_in_range(rrule: Seq<char>, tz: Seq<char>, all_day: bool) -> bool {
    (rrule_parts(rrule) is Some && frequency_of(rrule_parts(rrule)->0) is Ok && interval_of(
        rrule_parts(rrule)->0,
    ) is Ok && lookup(rrule_parts(rrule)->0, "COUNT"@) is None && lookup(
        rrule_parts(rrule)->0,
        "UNTIL"@,
    ) is Some) ==> until_in_range(lookup(rrule_parts(rrule)->0, "UNTIL"@)->0, tz, all_day)
}

pub open spec fn parts_view(v: Seq<(Vec<char>, Vec<char>)>) -> Seq<(Seq<char>, Seq<char>)> {
    v.map_values(|p: (Vec<char>, Vec<char>)| (p.0@, p.1@))
}

/// The `KEY=value` parts of an RRULE.
pub(crate) fn split_parts(rrule: &Vec<char>) -> (r: Option<Vec<(Vec<char>, Vec<char>)>>)
    ensures
        match rrule_parts(rrule@) {
            Some(ps) => r matches Some(v) && parts_view(v@) == ps,
            None => r is None,
        },
{
    let pieces = split_chars(rrule, ';');
    let ghost pv = pieces_view(pieces@);
    let mut out: Vec<(Vec<char>, Vec<char>)> = Vec::new();
    for i in 0..pieces.len()
        invariant
            pv == pieces_view(pieces@),
            pv == split_on(rrule@, ';'),
            parse_parts(pv.take(i as int)) matches Some(ps) && parts_view(out@) == ps,
    {
        assert(pv.take(i + 1).drop_last() =~= pv.take(i as int));
        assert(pv[i as int] == pieces@[i as int]@);
        let piece = &pieces[i];
        match find_first(piece, '=') {
            None => {
                proof { lemma_parse_parts_none(pv, (i + 1) as int); }
                return None;
            },
            Some(k) => {
                let key = slice_chars(piece, 0, k);
                let value = slice_chars(piece, k + 1, piece.len());
                let up = to_ascii_uppercase(&key);
                let ghost prev = parts_view(out@);
                assert(piece@.take(k as int) =~= piece@.subrange(0, k as int));
                assert(piece@.skip(k + 1) =~= piece@.subrange(k + 1, piece@.len() as int));
                out.push((up, value));
                assert(parts_view(out@) =~= prev.push((up@, value@)));
            },
        }
    }
    assert(pv.take(pv.len() as int) =~= pv);
    Some(out)
}

/// A part without `=` in a prefix makes the whole RRULE fail.
proof fn lemma_parse_parts_none(pieces: Seq<Seq<char>>, k: int)
    requires
        0 <= k <= pieces.len(),
        parse_parts(pieces.take(k)) is None,
    ensures
        parse_parts(pieces) is None,
    decreases pieces.len() - k,
{
    if k < pieces.len() {
        assert(pieces.take(k + 1).drop_last() =~= pieces.take(k));
        lemma_parse_parts_none(pieces, k + 1);
    } else {
        assert(pieces.take(k) =~= pieces);
    }
}

/// The index of the last part with the key.
pub(crate) fn find_part(parts: &Vec<(Vec<char>, Vec<char>)>, key: &str) -> (r: Option<usize>)
    ensures
        match lookup(parts_view(parts@), key@) {
            Some(v) => r matches Some(k) && k < parts@.len() && parts@[k as int].1@ == v,
            None => r is None,
        },
{
    let ghost pv = parts_view(parts@);
    let kc = chars_of(key);
    let mut k: usize = parts.len();
    assert(pv.take(k as int) =~= pv);
    while k > 0
        invariant
            k <= parts.len(),
            pv == parts_view(parts@),
            kc@ == key@,
            lookup(pv, key@) == lookup(pv.take(k as int), key@),
        decreases k,
    {
        assert(pv.take(k as int).drop_last() =~= pv.take(k - 1));
        assert(pv.take(k as int).last() == pv[k - 1]);
        if chars_eq(&parts[k - 1].0, &kc) {
            return Some(k - 1);
        }
        k = k - 1;
    }
    None
}

/// The non-empty comma-separated values, as advanced rules of type `t`.
fn rules_of_value(value: &Vec<char>, t: i64) -> (r: Vec<AdvancedRule>)
    ensures
        advanced_view(r@) == rules_from_pieces(split_on(value@, ','), t),
{
    let pieces = split_chars(value, ',');
    let ghost pv = pieces_view(pieces@);
    let mut out: Vec<AdvancedRule> = Vec::new();
    for i in 0..pieces.len()
        invariant
            pv == pieces_view(pieces@),
            pv == split_on(value@, ','),
            advanced_view(out@) == rules_from_pieces(pv.take(i as int), t),
    {
        assert(pv.take(i + 1).drop_last() =~= pv.take(i as int));
        assert(pv[i as int] == pieces@[i as int]@);
        let ghost prev = advanced_view(out@);
        if pieces[i].len() > 0 {
            let rule = AdvancedRule { rule_type: t, interval: string_of(&pieces[i]) };
            out.push(rule);
            assert(advanced_view(out@) =~= prev.push(rule@));
        }
    }
    assert(pv.take(pv.len() as int) =~= pv);
    out
}

/// The sorted names, as strings.
fn sorted_name_str(k: usize) -> (r: &'static str)
    requires
        k < 9,
    ensures
        r@ == sorted_rule_name(k as int),
{
    if k == 0 {
        "BYDAY"
    } else if k == 1 {
        "BYHOUR"
    } else if k == 2 {
        "BYMINUTE"
    } else if k == 3 {
        "BYMONTH"
    } else if k == 4 {
        "BYMONTHDAY"
    } else if k == 5 {
        "BYSETPOS"
    } else if k == 6 {
        "BYWEEKNO"
    } else if k == 7 {
        "BYYEARDAY"
    } else {
        "WKST"
    }
}

/// The advanced rules that the RRULE's `BYxxx` parts hold.
fn advanced_rules_of(parts: &Vec<(Vec<char>, Vec<char>)>) -> (r: Vec<AdvancedRule>)
    ensures
        advanced_view(r@) == advanced_of(parts_view(parts@), 9),
{
    let mut out: Vec<AdvancedRule> = Vec::new();
    for k in 0..9
        invariant
            advanced_view(out@) == advanced_of(parts_view(parts@), k as int),
    {
        let name = sorted_name_str(k);
        let ghost prev = advanced_view(out@);
        match find_part(parts, name) {
            Some(idx) => {
                let t = match by_rule_type(name) {
                    Some(t) => t,
                    None => 0,
                };
                proof {
                    reveal_strlit("BYDAY");
                    reveal_strlit("BYHOUR");
                    reveal_strlit("BYMINUTE");
                    reveal_strlit("BYMONTH");
                    reveal_strlit("BYMONTHDAY");
                    reveal_strlit("BYSETPOS");
                    reveal_strlit("BYWEEKNO");
                    reveal_strlit("BYYEARDAY");
                    reveal_strlit("WKST");
                    assert(rule_type(sorted_rule_name(k as int)) is Some);
                }
                let more = rules_of_value(&parts[idx].1, t);
                let mut j: usize = 0;
                while j < more.len()
                    invariant
                        j <= more.len(),
                        advanced_view(out@) =~= prev + advanced_view(more@).take(j as int),
                    decreases more.len() - j,
                {
                    let item = AdvancedRule {
                        rule_type: more[j].rule_type,
                        interval: more[j].interval.clone(),
                    };
                    assert(item@ == advanced_view(more@)[j as int]);
                    let ghost before = advanced_view(out@);
                    out.push(item);
                    assert(advanced_view(out@) =~= before.push(item@));
                    assert(advanced_view(more@).take(j + 1) =~= advanced_view(more@).take(
                        j as int,
                    ).push(item@));
                    j = j + 1;
                }
                assert(advanced_view(more@).take(more.len() as int) =~= advanced_view(more@));
            },
            None => {
                assert(advanced_view(out@) =~= prev + seq![]);
            },
        }
    }
    out
}


/// A Tuta timestamp that agrees with a caldir time wherever the timestamp
/// does not depend on the machine.
pub open spec fn exdate_value_ok(t: EventTimeView, v: u64) -> bool {
    match tuta_millis_of(t) {
        Some(ms) => v == ms,
        None => true,
    }
}

/// Whether converting the caldir time for Tuta can fail (before 1970).
pub open spec fn exdate_may_fail(t: EventTimeView) -> bool {
    match tuta_millis_of(t) {
        Some(ms) => ms < 0,
        None => true,
    }
}

pub open spec fn ascending_keys(v: Seq<u64>) -> Seq<i128> {
    Seq::new(v.len(), |i: int| v[i] as i128)
}

/// `out` is `vals` in ascending order.
pub open spec fn is_sorted_ascending_of(vals: Seq<u64>, out: Seq<u64>) -> bool {
    exists|perm: Seq<usize>|
        is_stable_order(ascending_keys(vals), perm) && out == Seq::new(
            perm.len(),
            |i: int| vals[perm[i] as int],
        )
}

/// What converting the excluded dates for Tuta may give: their timestamps
/// in ascending order, or the error of a date before 1970.
pub open spec fn excluded_outcome(ex: Seq<EventTimeView>, r: Result<Seq<u64>, MappingError>) -> bool {
    match r {
        Ok(out) => exists|vals: Seq<u64>|
            vals.len() == ex.len() && (forall|i: int|
                0 <= i < ex.len() ==> exdate_value_ok(ex[i], #[trigger] vals[i]))
                && is_sorted_ascending_of(vals, out),
        Err(e) => e == MappingError::BeforeEpoch && exists|i: int|
            0 <= i < ex.len() && exdate_may_fail(#[trigger] ex[i]),
    }
}

/// Converts the excluded dates for Tuta and sorts them.
fn excluded_for_tuta(exdates: &Vec<EventTime>) -> (r: Result<Vec<u64>, MappingError>)
    requires
        forall|i: int| 0 <= i < exdates@.len() ==> tuta_convertible(#[trigger] exdates@[i]@),
    ensures
        excluded_outcome(
            times_view(exdates@),
            match r {
                Ok(v) => Ok(v@),
                Err(e) => Err(e),
            },
        ),
{
    let ghost ex = times_view(exdates@);
    let mut vals: Vec<u64> = Vec::new();
    for i in 0..exdates.len()
        invariant
            ex == times_view(exdates@),
            forall|j: int| 0 <= j < exdates@.len() ==> tuta_convertible(#[trigger] exdates@[j]@),
            vals@.len() == i,
            forall|j: int| 0 <= j < i ==> exdate_value_ok(ex[j], #[trigger] vals@[j]),
    {
        assert(ex[i as int] == exdates@[i as int]@);
        match to_tuta_time(&exdates[i]) {
            Ok((ms, _)) => {
                vals.push(ms);
            },
            Err(e) => {
                assert(exdate_may_fail(ex[i as int]));
                return Err(e);
            },
        }
    }
    let out = sort_ascending(&vals);
    Ok(out)
}

/// The values in ascending order.
pub fn sort_ascending(vals: &Vec<u64>) -> (r: Vec<u64>)
    ensures
        is_sorted_ascending_of(vals@, r@),
{
    let mut keys: Vec<i128> = Vec::new();
    for i in 0..vals.len()
        invariant
            keys@ =~= ascending_keys(vals@.take(i as int)),
    {
        keys.push(vals[i] as i128);
    }
    assert(vals@.take(vals.len() as int) =~= vals@);
    let perm = stable_order(&keys);
    let mut out: Vec<u64> = Vec::new();
    for i in 0..perm.len()
        invariant
            is_stable_order(ascending_keys(vals@), perm@),
            keys@ == ascending_keys(vals@),
            out@ =~= Seq::new(i as nat, |k: int| vals@[perm@[k] as int]),
    {
        assert(perm@[i as int] < vals@.len());
        out.push(vals[perm[i]]);
    }
    assert(is_sorted_ascending_of(vals@, out@));
    out
}

/// Builds the Tuta repeat rule of a caldir recurrence; `timezone` is the
/// zone of the event's start. An RRULE of the shape that the provider
/// writes gives a rule that is written back as the same RRULE.
pub fn recurrence_to_tuta(recurrence: &Recurrence, timezone: &str, all_day: bool) -> (r: Result<
    RepeatRule,
    MappingError,
>)
    requires
        forall|i: int|
            0 <= i < recurrence@.exdates.len() ==> tuta_convertible(
                #[trigger] recurrence@.exdates[i],
            ),
        recurrence@.rdates.len() == 0 ==> rrule_until_in_range(
            recurrence@.rrule,
            timezone@,
            all_day,
        ),
    ensures
        recurrence@.rdates.len() > 0 ==> r == Err::<RepeatRule, MappingError>(
            MappingError::RdateUnsupported,
        ),
        recurrence@.rdates.len() == 0 ==> match rule_core(recurrence@.rrule, timezone@, all_day) {
            Err(e) => r == Err::<RepeatRule, MappingError>(e),
            Ok((f, i, et, ev, adv)) => match r {
                Ok(rule) => rule@.frequency == f && rule@.interval == i && rule@.end_type == et
                    && rule@.end_value == ev && rule@.time_zone == timezone@
                    && rule@.advanced_rules == adv && excluded_outcome(
                    recurrence@.exdates,
                    Ok(rule@.excluded_dates),
                ),
                Err(e) => excluded_outcome(recurrence@.exdates, Err(e)),
            },
        },
        r matches Ok(rule) ==> (rule@.end_type == 2 ==> (until_shaped(
            rrule_until(recurrence@.rrule),
            all_day,
        ) ==> until_echoes(rrule_until(recurrence@.rrule), all_day, rule@.end_value->0 as int))),
        r matches Ok(rule) ==> (rrule_shaped(recurrence@.rrule, all_day) ==> rrule_text(
            rule@,
            all_day,
        ) == Ok::<Seq<char>, MappingError>(recurrence@.rrule)),
{
    if recurrence.rdates.len() > 0 {
        return Err(MappingError::RdateUnsupported);
    }
    let text = chars_of(recurrence.rrule.as_str());
    let parts = match split_parts(&text) {
        Some(p) => p,
        None => {
            return Err(MappingError::InvalidRrulePart);
        },
    };
    let ghost ps = parts_view(parts@);
    let frequency: i64 = match find_part(&parts, "FREQ") {
        None => {
            return Err(MappingError::MissingFrequency);
        },
        Some(k) => {
            let v = &parts[k].1;
            if chars_eq_str(v, "DAILY") {
                0
            } else if chars_eq_str(v, "WEEKLY") {
                1
            } else if chars_eq_str(v, "MONTHLY") {
                2
            } else if chars_eq_str(v, "YEARLY") {
                3
            } else {
                return Err(MappingError::UnsupportedFrequency);
            }
        },
    };
    assert(frequency_of(ps) == Ok::<i64, MappingError>(frequency));
    let interval: i64 = match find_part(&parts, "INTERVAL") {
        None => 1,
        Some(k) => match parse_i64(&parts[k].1) {
            None => {
                return Err(MappingError::InvalidInterval);
            },
            Some(n) => n,
        },
    };
    assert(interval_of(ps) == Ok::<i64, MappingError>(interval));
    let (end_type, end_value): (i64, Option<i64>) = match find_part(&parts, "COUNT") {
        Some(k) => match parse_i64(&parts[k].1) {
            None => {
                return Err(MappingError::InvalidCount);
            },
            Some(n) => (1, Some(n)),
        },
        None => match find_part(&parts, "UNTIL") {
            Some(k) => {
                let u = string_of(&parts[k].1);
                match parse_until(u.as_str(), timezone, all_day) {
                    Err(e) => {
                        return Err(e);
                    },
                    Ok(ms) => (2, Some(ms)),
                }
            },
            None => (0, None),
        },
    };
    assert(end_of(ps, timezone@, all_day) == Ok::<(i64, Option<i64>), MappingError>(
        (end_type, end_value),
    ));
    let advanced_rules = advanced_rules_of(&parts);
    assert forall|i: int| 0 <= i < recurrence.exdates@.len() implies tuta_convertible(
        #[trigger] recurrence.exdates@[i]@,
    ) by {
        assert(recurrence@.exdates[i] == recurrence.exdates@[i]@);
    }
    let excluded_dates = match excluded_for_tuta(&recurrence.exdates) {
        Ok(v) => v,
        Err(e) => {
            return Err(e);
        },
    };
    let rule = RepeatRule {
        frequency,
        end_type,
        end_value,
        interval,
        time_zone: timezone.to_owned(),
        excluded_dates,
        advanced_rules,
    };
    proof {
        let text = recurrence@.rrule;
        if rrule_shaped(text, all_day) {
            let (f, n, et, c, u, blocks) = choose|
                f: int,
                n: int,
                et: int,
                c: int,
                u: Seq<char>,
                blocks: Seq<(int, Seq<Seq<char>>)>,
            |
                #[trigger] shape_text(f, n, et, c, u, blocks) == text && shape_ok(
                    f,
                    n,
                    et,
                    c,
                    u,
                    blocks,
                    all_day,
                );
            lemma_shaped_rrule_round_trip(text, timezone@, all_day, rule@, f, n, et, c, u, blocks);
        }
    }
    Ok(rule)
}


// ------------------------------------------------------------ whole events
/// A Tuta sequence number as caldir holds it: `i32::MAX` when it does not
/// fit.
pub open spec fn sequence_i32(s: i64) -> i32 {
    if i32::MIN <= s <= i32::MAX {
        s as i32
    } else {
        i32::MAX
    }
}

/// Whether every time of a Tuta event converts without leaving chrono's
/// range.
pub open spec fn tuta_event_fits(e: TutaEventView) -> bool {
    let all_day = all_day_spec(e);
    &&& local_reading_fits(e.start_time, e.start_time_zone, all_day)
    &&& local_reading_fits(e.end_time, e.end_time_zone, all_day)
    &&& (e.recurrence_id matches Some(v) ==> local_reading_fits(v, e.start_time_zone, all_day))
    &&& (e.repeat_rule matches Some(rule) ==> until_fits(rule, all_day) && exdates_fit(
        rule,
        all_day,
    ))
}

/// The caldir event that a Tuta event becomes, given its converted times
/// and recurrence.
pub open spec fn caldir_event_of(
    src: TutaEventView,
    uid: Seq<char>,
    start: EventTimeView,
    end: EventTimeView,
    rid: Option<EventTimeView>,
    recurrence: Option<RecurrenceView>,
) -> EventView {
    EventView {
        uid,
        summary: Some(src.summary),
        description: non_empty_text(src.description),
        location: non_empty_text(src.location),
        start,
        end: Some(end),
        recurrence,
        recurrence_id: rid,
        reminders: seq![],
        x_properties: seq![],
        last_modified: None,
        sequence: sequence_i32(src.sequence),
    }
}

/// The recurrence id of a Tuta event in caldir, or the error converting it.
pub open spec fn caldir_recurrence_id(src: TutaEventView) -> Result<
    Option<EventTimeView>,
    MappingError,
> {
    match src.recurrence_id {
        None => Ok(None),
        Some(v) => match caldir_time(v, src.start_time_zone, all_day_spec(src)) {
            Err(e) => Err(e),
            Ok(t) => Ok(Some(t)),
        },
    }
}

/// What converting a Tuta event for caldir gives: the event, or the first
/// error among its start, end, uid, recurrence id and repeat rule.
pub open spec fn caldir_event_outcome(src: TutaEventView, r: Result<EventView, MappingError>) -> bool {
    let all_day = all_day_spec(src);
    match caldir_time(src.start_time, src.start_time_zone, all_day) {
        Err(e) => r == Err::<EventView, MappingError>(e),
        Ok(start) => match caldir_time(src.end_time, src.end_time_zone, all_day) {
            Err(e) => r == Err::<EventView, MappingError>(e),
            Ok(end) => match src.uid {
                None => r == Err::<EventView, MappingError>(MappingError::MissingUid),
                Some(uid) => match caldir_recurrence_id(src) {
                    Err(e) => r == Err::<EventView, MappingError>(e),
                    Ok(rid) => match src.repeat_rule {
                        None => r == Ok::<EventView, MappingError>(
                            caldir_event_of(src, uid, start, end, rid, None),
                        ),
                        Some(rule) => match r {
                            Ok(ev) => ev == caldir_event_of(src, uid, start, end, rid, ev.recurrence)
                                && ev.recurrence is Some && recurrence_outcome(
                                rule,
                                all_day,
                                Ok(ev.recurrence->0),
                            ),
                            Err(e) => recurrence_outcome(rule, all_day, Err(e)),
                        },
                    },
                },
            },
        },
    }
}

pub open spec fn event_result_view(r: Result<Event, MappingError>) -> Result<EventView, MappingError> {
    match r {
        Ok(e) => Ok(e@),
        Err(e) => Err(e),
    }
}

fn opt_as_str(o: &Option<String>) -> (r: Option<&str>)
    ensures
        opt_zone(r) == opt_string(*o),
{
    match o {
        Some(s) => Some(s.as_str()),
        None => None,
    }
}

/// Converts a Tuta event into a caldir event. Tuta keeps no modification
/// time, so the event has none.
pub fn to_caldir_event(source: &TutaEvent) -> (r: Result<Event, MappingError>)
    requires
        tuta_event_fits(source@),
    ensures
        caldir_event_outcome(source@, event_result_view(r)),
{
    let all_day = is_all_day(source);
    let stz = opt_as_str(&source.start_time_zone);
    let etz = opt_as_str(&source.end_time_zone);
    let start = match from_tuta_time(source.start_time, stz, all_day) {
        Ok(t) => t,
        Err(e) => {
            return Err(e);
        },
    };
    let end = match from_tuta_time(source.end_time, etz, all_day) {
        Ok(t) => t,
        Err(e) => {
            return Err(e);
        },
    };
    let uid = match &source.uid {
        Some(u) => u.clone(),
        None => {
            return Err(MappingError::MissingUid);
        },
    };
    let recurrence_id = match source.recurrence_id {
        None => None,
        Some(v) => match from_tuta_time(v, stz, all_day) {
            Ok(t) => Some(t),
            Err(e) => {
                return Err(e);
            },
        },
    };
    let recurrence = match &source.repeat_rule {
        None => None,
        Some(rule) => match recurrence_from_tuta(rule, all_day) {
            Ok(rec) => Some(rec),
            Err(e) => {
                return Err(e);
            },
        },
    };
    let sequence: i32 = if source.sequence >= -2147483648 && source.sequence <= 2147483647 {
        source.sequence as i32
    } else {
        i32::MAX
    };
    let event = Event {
        uid,
        summary: Some(source.summary.clone()),
        description: non_empty(source.description.as_str()),
        location: non_empty(source.location.as_str()),
        start,
        end: Some(end),
        recurrence,
        recurrence_id,
        reminders: Vec::new(),
        x_properties: Vec::new(),
        last_modified: None,
        sequence,
    };
    assert(event@.reminders =~= seq![]);
    assert(event@.x_properties =~= seq![]);
    Ok(event)
}


/// The zone that a caldir event's recurrence is read in: its start's zone,
/// or `UTC` for a floating start.
pub open spec fn start_rule_zone(e: EventView) -> Seq<char> {
    match tuta_zone_of(e.start) {
        Some(z) => z,
        None => "UTC"@,
    }
}

/// Whether every time of a caldir event converts without leaving chrono's
/// range.
pub open spec fn event_fits(e: EventView) -> bool {
    &&& tuta_convertible(e.start)
    &&& (e.end matches Some(t) ==> tuta_convertible(t))
    &&& (e.recurrence_id matches Some(t) ==> tuta_convertible(t))
    &&& (e.recurrence matches Some(rec) ==> (forall|i: int|
        0 <= i < rec.exdates.len() ==> tuta_convertible(#[trigger] rec.exdates[i])) && (
    rec.rdates.len() == 0 ==> rrule_until_in_range(
        rec.rrule,
        start_rule_zone(e),
        e.start is Date,
    )))
}

/// Whether a caldir time may convert for Tuta (it is not known to lie
/// before 1970).
pub open spec fn may_convert(t: EventTimeView) -> bool {
    match tuta_millis_of(t) {
        Some(ms) => ms >= 0,
        None => true,
    }
}

/// The end that Tuta gets for an event without one: a day after an
/// all-day start, an hour after any other.
pub open spec fn fallback_length(start: EventTimeView) -> int {
    if start is Date {
        DAY_MS as int
    } else {
        HOUR_MS as int
    }
}

pub open spec fn text_or_empty(o: Option<Seq<char>>) -> Seq<char> {
    match o {
        Some(s) => s,
        None => seq![],
    }
}

/// The Tuta entity that a caldir event becomes: its texts, uid and sequence,
/// its times as timestamps with their zones, and its recurrence as a repeat
/// rule; nothing of the server's state.
pub open spec fn tuta_event_matches(ev: EventView, te: TutaEventView) -> bool {
    &&& te.id is None
    &&& te.owner_group is None
    &&& te.summary == text_or_empty(ev.summary)
    &&& te.description == text_or_empty(ev.description)
    &&& te.location == text_or_empty(ev.location)
    &&& te.uid == Some(ev.uid)
    &&& te.hashed_uid is None
    &&& te.sequence == ev.sequence as i64
    &&& te.alarm_infos.len() == 0
    &&& te.attendee_count == 0
    &&& exdate_value_ok(ev.start, te.start_time)
    &&& te.start_time_zone == tuta_zone_of(ev.start)
    &&& match ev.end {
        Some(e) => exdate_value_ok(e, te.end_time) && te.end_time_zone == tuta_zone_of(e),
        None => te.end_time == te.start_time + fallback_length(ev.start) && te.end_time_zone
            == tuta_zone_of(ev.start),
    }
    &&& match ev.recurrence_id {
        None => te.recurrence_id is None,
        Some(t) => te.recurrence_id matches Some(v) && exdate_value_ok(t, v),
    }
    &&& match ev.recurrence {
        None => te.repeat_rule is None,
        Some(rec) => rec.rdates.len() == 0 && match rule_core(
            rec.rrule,
            start_rule_zone(ev),
            ev.start is Date,
        ) {
            Ok((f, i, et, ev2, adv)) => match te.repeat_rule {
                Some(rule) => rule.frequency == f && rule.interval == i && rule.end_type == et
                    && rule.end_value == ev2 && rule.time_zone == start_rule_zone(ev)
                    && rule.advanced_rules == adv && excluded_outcome(
                    rec.exdates,
                    Ok(rule.excluded_dates),
                ),
                None => false,
            },
            Err(_) => false,
        },
    }
}

/// The errors that converting a caldir event for Tuta may give: a time
/// before 1970, checked in the order start, end, recurrence id; then the
/// recurrence's own error.
pub open spec fn tuta_error_possible(ev: EventView, e: MappingError) -> bool {
    let end_ok = match ev.end {
        Some(t) => may_convert(t),
        None => true,
    };
    let end_fails = match ev.end {
        Some(t) => exdate_may_fail(t),
        None => false,
    };
    let rid_ok = match ev.recurrence_id {
        Some(t) => may_convert(t),
        None => true,
    };
    let rid_fails = match ev.recurrence_id {
        Some(t) => exdate_may_fail(t),
        None => false,
    };
    let rec_fails = match ev.recurrence {
        Some(rec) => {
            ||| (rec.rdates.len() > 0 && e == MappingError::RdateUnsupported)
            ||| (rec.rdates.len() == 0 && rule_core(rec.rrule, start_rule_zone(ev), ev.start is Date)
                == Err::<(i64, i64, i64, Option<i64>, Seq<AdvancedRuleView>), MappingError>(e))
            ||| (rec.rdates.len() == 0 && rule_core(
                rec.rrule,
                start_rule_zone(ev),
                ev.start is Date,
            ) is Ok && excluded_outcome(rec.exdates, Err(e)))
        },
        None => false,
    };
    ||| (exdate_may_fail(ev.start) && e == MappingError::BeforeEpoch)
    ||| (may_convert(ev.start) && end_fails && e == MappingError::BeforeEpoch)
    ||| (may_convert(ev.start) && end_ok && rid_fails && e == MappingError::BeforeEpoch)
    ||| (may_convert(ev.start) && end_ok && rid_ok && rec_fails)
}

pub open spec fn tuta_result_view(r: Result<TutaEvent, MappingError>) -> Result<
    TutaEventView,
    MappingError,
> {
    match r {
        Ok(e) => Ok(e@),
        Err(e) => Err(e),
    }
}

/// A copy of an optional text.
fn copy_opt(o: &Option<String>) -> (r: Option<String>)
    ensures
        opt_string(r) == opt_string(*o),
{
    match o {
        Some(s) => Some(s.clone()),
        None => None,
    }
}

/// The text, or an empty one.
fn text_or_default(o: &Option<String>) -> (r: String)
    ensures
        r@ == text_or_empty(opt_string(*o)),
{
    match o {
        Some(s) => s.clone(),
        None => String::new(),
    }
}

/// Converts a caldir event into a Tuta entity.
pub fn from_caldir_event(event: &Event) -> (r: Result<TutaEvent, MappingError>)
    requires
        event_fits(event@),
    ensures
        match tuta_result_view(r) {
            Ok(te) => tuta_event_matches(event@, te),
            Err(e) => tuta_error_possible(event@, e),
        },
        r matches Ok(te) ==> server_empty(te.server),
{
    let (start_time, start_zone) = match to_tuta_time(&event.start) {
        Ok(v) => v,
        Err(e) => {
            return Err(e);
        },
    };
    let is_date = event.start.is_date();
    let fallback_end: u64 = if is_date {
        start_time + 86_400_000
    } else {
        start_time + 3_600_000
    };
    let (end_time, end_zone) = match &event.end {
        Some(e) => match to_tuta_time(e) {
            Ok(v) => v,
            Err(err) => {
                return Err(err);
            },
        },
        None => (fallback_end, copy_opt(&start_zone)),
    };
    let recurrence_id = match &event.recurrence_id {
        None => None,
        Some(t) => match to_tuta_time(t) {
            Ok((ms, _)) => Some(ms),
            Err(err) => {
                return Err(err);
            },
        },
    };
    let repeat_rule = match &event.recurrence {
        None => None,
        Some(rec) => {
            let tz: &str = match &start_zone {
                Some(z) => z.as_str(),
                None => "UTC",
            };
            match recurrence_to_tuta(rec, tz, is_date) {
                Ok(rule) => Some(rule),
                Err(err) => {
                    return Err(err);
                },
            }
        },
    };
    let sequence = event.sequence as i64;
    let te = TutaEvent {
        id: None,
        owner_group: None,
        summary: text_or_default(&event.summary),
        description: text_or_default(&event.description),
        location: text_or_default(&event.location),
        start_time,
        end_time,
        uid: Some(event.uid.clone()),
        hashed_uid: None,
        sequence,
        recurrence_id,
        start_time_zone: start_zone,
        end_time_zone: end_zone,
        repeat_rule,
        alarm_infos: Vec::new(),
        attendees: Vec::new(),
        server: ServerFields::empty(),
    };
    Ok(te)
}

/// A caldir event that is written to Tuta and read back keeps its uid, its
/// sequence and, where it has them, its summary, description and location;
/// an event without an end comes back with the end that Tuta was given.
pub proof fn lemma_caldir_round_trip(ev: EventView, te: TutaEventView, back: EventView)
    requires
        tuta_event_matches(ev, te),
        caldir_event_outcome(te, Ok(back)),
    ensures
        back.uid == ev.uid,
        back.sequence == ev.sequence,
        ev.summary is Some ==> back.summary == ev.summary,
        ev.description matches Some(d) && d.len() > 0 ==> back.description == ev.description,
        ev.location matches Some(l) && l.len() > 0 ==> back.location == ev.location,
        back.last_modified is None,
        back.recurrence is Some <==> ev.recurrence is Some,
{
}

} // verus!
