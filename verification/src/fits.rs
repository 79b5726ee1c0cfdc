//! Checks, made before a conversion, that every time it produces stays in
//! chrono's range, and that the texts it slices split where they must.
//! The conversions demand these of their inputs; a caller tests them first.

use vstd::prelude::*;

use crate::alarms::{
    UserAlarm, find_trigger, id_text, id_to_string, referenced_triggers_splittable,
    splittable_trigger, trigger_of,
};
use crate::content::strip_hash;
use crate::entity::{RepeatRule, TutaEvent};
use crate::event::{Event, EventTime};
use crate::listing::{color_fits, listable};
use crate::mapping::{
    event_fits, exdates_fit, find_part, from_tuta_time, frequency_of, interval_of, is_all_day,
    tuta_convertible, local_reading_fits, opt_zone, parts_view, rrule_until_in_range, rule_zone, split_parts,
    start_rule_zone, tuta_event_fits, until_fits, until_in_range,
};
use crate::text::{boundary_at, byte_len_is, chars_eq_str, chars_of, parse_i64, string_of};
use crate::time::{
    DAY_MS, MAX_DAY, MAX_MS, MIN_DAY, MIN_MS, millis_in_range, naive_date_parse, naive_datetime_parse,
    time_is_convertible, tz_is_known, well_inside, zone_local_earliest, zone_offset_seconds,
};

verus! {

/// Whether an instant lies two days or more inside chrono's range.
fn millis_well_inside(ms: i64) -> (r: bool)
    ensures
        r == well_inside(ms as int),
{
    MIN_MS + 2 * DAY_MS <= ms && ms <= MAX_MS - 2 * DAY_MS
}

/// Whether a caldir time converts without leaving chrono's range.
pub fn time_convertible(t: &EventTime) -> (r: bool)
    ensures
        r == time_is_convertible(t@),
{
    match t {
        EventTime::Date(d) => millis_well_inside((*d as i64) * DAY_MS),
        EventTime::DateTimeUtc(ms) => millis_in_range(*ms),
        EventTime::DateTimeFloating(ms) => millis_well_inside(*ms),
        EventTime::DateTimeZoned { datetime, .. } => millis_well_inside(*datetime),
    }
}

/// Whether a caldir time is one that chrono holds and, where zoned, lies
/// inside chrono's range.
pub fn tuta_time_convertible(t: &EventTime) -> (r: bool)
    ensures
        r == tuta_convertible(t@),
{
    match t {
        EventTime::Date(d) => MIN_DAY <= *d && *d <= MAX_DAY,
        EventTime::DateTimeUtc(ms) => millis_in_range(*ms),
        EventTime::DateTimeFloating(ms) => millis_in_range(*ms),
        EventTime::DateTimeZoned { datetime, .. } => millis_well_inside(*datetime),
    }
}

/// Whether the wall-clock reading of a Tuta timestamp in its zone stays in
/// chrono's range.
pub fn reading_fits(value: u64, zone: Option<&str>, all_day: bool) -> (r: bool)
    ensures
        r == local_reading_fits(value, opt_zone(zone), all_day),
{
    if value > 9223372036854775807u64 || all_day {
        return true;
    }
    let ms = value as i64;
    if !millis_in_range(ms) {
        return true;
    }
    match zone {
        None => true,
        Some(z) => {
            let zc = chars_of(z);
            if chars_eq_str(&zc, "UTC") || !tz_is_known(z) {
                true
            } else {
                let offset = (zone_offset_seconds(z, ms) as i64) * 1000;
                millis_in_range(ms + offset)
            }
        },
    }
}

fn zone_of_rule(rule: &RepeatRule) -> (r: Option<&str>)
    ensures
        opt_zone(r) == rule_zone(rule@),
{
    if chars_of(rule.time_zone.as_str()).len() == 0 {
        None
    } else {
        Some(rule.time_zone.as_str())
    }
}

/// Whether the end and the excluded dates of a Tuta rule convert without
/// leaving chrono's range.
pub fn rule_fits(rule: &RepeatRule, all_day: bool) -> (r: bool)
    ensures
        r == (until_fits(rule@, all_day) && exdates_fit(rule@, all_day)),
{
    if rule.end_type == 2 {
        if let Some(v) = rule.end_value {
            if millis_in_range(v) {
                let step: i64 = if all_day {
                    DAY_MS
                } else {
                    1000
                };
                if !millis_in_range(v - step) {
                    return false;
                }
            }
        }
    }
    let zone = zone_of_rule(rule);
    for i in 0..rule.excluded_dates.len()
        invariant
            opt_zone(zone) == rule_zone(rule@),
            until_fits(rule@, all_day),
            forall|k: int|
                0 <= k < i ==> {
                    &&& local_reading_fits(#[trigger] rule@.excluded_dates[k], rule_zone(rule@), all_day)
                    &&& (crate::mapping::caldir_time(rule@.excluded_dates[k], rule_zone(rule@), all_day)
                        matches Ok(t) ==> time_is_convertible(t))
                },
    {
        let v = rule.excluded_dates[i];
        if !reading_fits(v, zone, all_day) {
            return false;
        }
        match from_tuta_time(v, zone, all_day) {
            Ok(t) => {
                if !time_convertible(&t) {
                    return false;
                }
            },
            Err(_) => {},
        }
    }
    true
}

fn zone_str(o: &Option<String>) -> (r: Option<&str>)
    ensures
        opt_zone(r) == crate::mapping::opt_string(*o),
{
    match o {
        Some(s) => Some(s.as_str()),
        None => None,
    }
}

/// Whether every time of a Tuta event converts without leaving chrono's
/// range.
pub fn tuta_event_convertible(e: &TutaEvent) -> (r: bool)
    ensures
        r == tuta_event_fits(e@),
{
    let all_day = is_all_day(e);
    let stz = zone_str(&e.start_time_zone);
    let etz = zone_str(&e.end_time_zone);
    if !reading_fits(e.start_time, stz, all_day) || !reading_fits(e.end_time, etz, all_day) {
        return false;
    }
    if let Some(v) = e.recurrence_id {
        if !reading_fits(v, stz, all_day) {
            return false;
        }
    }
    match &e.repeat_rule {
        Some(rule) => rule_fits(rule, all_day),
        None => true,
    }
}

/// Whether a Tuta event can be read for listing.
pub fn event_listable(e: &TutaEvent) -> (r: bool)
    ensures
        r == listable(e@),
{
    if !tuta_event_convertible(e) {
        return false;
    }
    let all_day = is_all_day(e);
    let stz = zone_str(&e.start_time_zone);
    let etz = zone_str(&e.end_time_zone);
    match from_tuta_time(e.start_time, stz, all_day) {
        Ok(t) => {
            if !time_convertible(&t) {
                return false;
            }
        },
        Err(_) => {},
    }
    match from_tuta_time(e.end_time, etz, all_day) {
        Ok(t) => time_convertible(&t),
        Err(_) => true,
    }
}

/// Whether reading an RRULE `UNTIL` value stays in chrono's range.
pub fn until_readable(value: &str, timezone: &str, all_day: bool) -> (r: bool)
    ensures
        r == until_in_range(value@, timezone@, all_day),
{
    let v = chars_of(value);
    assert(v@.skip(0) =~= v@);
    if all_day || byte_len_is(&v, 0, 8) {
        match naive_date_parse(value, "%Y%m%d") {
            Some(d) => millis_in_range((d as i64) * DAY_MS + DAY_MS),
            None => true,
        }
    } else if v.len() > 0 && v[v.len() - 1] == 'Z' {
        match naive_datetime_parse(value, "%Y%m%dT%H%M%SZ") {
            Some(secs) => millis_in_range(secs * 1000 + 1000),
            None => true,
        }
    } else {
        match naive_datetime_parse(value, "%Y%m%dT%H%M%S") {
            Some(l) => {
                if !tz_is_known(timezone) {
                    true
                } else if !millis_well_inside(l * 1000) {
                    false
                } else {
                    match zone_local_earliest(timezone, l * 1000) {
                        Some(ms) => millis_in_range(ms + 1000),
                        None => true,
                    }
                }
            },
            None => true,
        }
    }
}

/// Whether reading the `UNTIL` of an RRULE, when it is read, stays in
/// chrono's range.
pub fn rrule_until_readable(rrule: &str, timezone: &str, all_day: bool) -> (r: bool)
    ensures
        r == rrule_until_in_range(rrule@, timezone@, all_day),
{
    let text = chars_of(rrule);
    let parts = match split_parts(&text) {
        Some(p) => p,
        None => {
            return true;
        },
    };
    let ghost ps = parts_view(parts@);
    match find_part(&parts, "FREQ") {
        None => {
            return true;
        },
        Some(k) => {
            let f = &parts[k].1;
            if !(chars_eq_str(f, "DAILY") || chars_eq_str(f, "WEEKLY") || chars_eq_str(
                f,
                "MONTHLY",
            ) || chars_eq_str(f, "YEARLY")) {
                assert(frequency_of(ps) is Err);
                return true;
            }
            assert(frequency_of(ps) is Ok);
        },
    }
    if let Some(k) = find_part(&parts, "INTERVAL") {
        if parse_i64(&parts[k].1).is_none() {
            assert(interval_of(ps) is Err);
            return true;
        }
    }
    assert(interval_of(ps) is Ok);
    if find_part(&parts, "COUNT").is_some() {
        return true;
    }
    match find_part(&parts, "UNTIL") {
        None => true,
        Some(k) => {
            let u = string_of(&parts[k].1);
            until_readable(u.as_str(), timezone, all_day)
        },
    }
}

fn start_zone(e: &Event) -> (r: &str)
    ensures
        r@ == start_rule_zone(e@),
{
    match &e.start {
        EventTime::Date(_) => "UTC",
        EventTime::DateTimeUtc(_) => "UTC",
        EventTime::DateTimeFloating(_) => "UTC",
        EventTime::DateTimeZoned { tzid, .. } => tzid.as_str(),
    }
}

/// Whether every time of a caldir event converts without leaving chrono's
/// range.
pub fn caldir_event_convertible(e: &Event) -> (r: bool)
    ensures
        r == event_fits(e@),
{
    if !tuta_time_convertible(&e.start) {
        return false;
    }
    if let Some(t) = &e.end {
        if !tuta_time_convertible(t) {
            return false;
        }
    }
    if let Some(t) = &e.recurrence_id {
        if !tuta_time_convertible(t) {
            return false;
        }
    }
    match &e.recurrence {
        None => true,
        Some(rec) => {
            assert(e@.recurrence == Some(rec@));
            for i in 0..rec.exdates.len()
                invariant
                    e@.recurrence == Some(rec@),
                    forall|k: int| 0 <= k < i ==> tuta_convertible(#[trigger] rec@.exdates[k]),
            {
                assert(rec@.exdates[i as int] == rec.exdates@[i as int]@);
                if !tuta_time_convertible(&rec.exdates[i]) {
                    assert(!tuta_convertible(rec@.exdates[i as int]));
                    return false;
                }
            }
            if rec.rdates.len() == 0 {
                rrule_until_readable(rec.rrule.as_str(), start_zone(e), e.start.is_date())
            } else {
                true
            }
        },
    }
}

/// Whether the calendar colour can be normalised.
pub fn color_normalizable(color: &str) -> (r: bool)
    ensures
        r == color_fits(color@),
{
    let all = chars_of(color);
    let from: usize = if all.len() > 0 && all[0] == '#' {
        1
    } else {
        0
    };
    assert(strip_hash(color@) =~= all@.skip(from as int));
    if !byte_len_is(&all, from, 8) {
        return true;
    }
    boundary_at(&all, from, 6)
}

/// Whether a reminder trigger can be split before its last character.
pub fn trigger_splittable(trigger: &str) -> (r: bool)
    ensures
        r == splittable_trigger(trigger@),
{
    let t = chars_of(trigger);
    if t.len() == 0 {
        true
    } else {
        (t[t.len() - 1] as u32) < 0x80
    }
}

/// Whether the trigger of every alarm that an event refers to in the
/// user's alarm list can be split before its last character.
pub fn referenced_triggers_ok(list: &str, events: &Vec<TutaEvent>, alarms: &Vec<UserAlarm>) -> (r:
    bool)
    ensures
        r == referenced_triggers_splittable(events@, list@, alarms@),
{
    let lc = chars_of(list);
    for e in 0..events.len()
        invariant
            lc@ == list@,
            forall|x: int, b: int|
                0 <= x < e && 0 <= b < events@[x]@.alarm_infos.len()
                    && #[trigger] events@[x]@.alarm_infos[b].list_id == list@ ==> (trigger_of(
                    alarms@,
                    id_text(events@[x]@.alarm_infos[b]),
                ) matches Some(t) ==> splittable_trigger(t)),
    {
        let ev = &events[e];
        for a in 0..ev.alarm_infos.len()
            invariant
                lc@ == list@,
                0 <= e < events.len(),
                ev == events@[e as int],
                forall|y: int|
                    0 <= y < a && #[trigger] ev@.alarm_infos[y].list_id == list@ ==> (trigger_of(
                        alarms@,
                        id_text(ev@.alarm_infos[y]),
                    ) matches Some(t) ==> splittable_trigger(t)),
                forall|x: int, b: int|
                    0 <= x < e && 0 <= b < events@[x]@.alarm_infos.len()
                        && #[trigger] events@[x]@.alarm_infos[b].list_id == list@ ==> (trigger_of(
                        alarms@,
                        id_text(events@[x]@.alarm_infos[b]),
                    ) matches Some(t) ==> splittable_trigger(t)),
        {
            let item = &ev.alarm_infos[a];
            assert(ev@.alarm_infos[a as int] == item@);
            let lid = chars_of(item.list_id.as_str());
            if crate::text::chars_eq(&lid, &lc) {
                let t = id_to_string(item);
                match find_trigger(alarms, &t) {
                    Some(k) => {
                        if !trigger_splittable(alarms[k].trigger.as_str()) {
                            assert(events@[e as int]@.alarm_infos[a as int].list_id == list@);
                            return false;
                        }
                    },
                    None => {},
                }
            }
        }
    }
    true
}

} // verus!
