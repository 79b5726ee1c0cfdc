//! What the provider lists: the calendars of a Tuta account, and the events
//! of a Tuta calendar that caldir asks for in a range of time.

use vstd::prelude::*;

use crate::alarms::{id_text, id_to_string};
use crate::content::{normalize_color, normalized_color, set_item_ref, strip_hash, with_item_ref};
use crate::entity::{TutaEvent, TutaEventView};
use crate::event::{Event, EventTimeView, EventView};
use crate::mapping::{
    MappingError, all_day_spec, caldir_event_outcome, caldir_time, event_result_view, known_instant,
    non_empty, non_empty_text, to_caldir_event, tuta_event_fits,
};
use crate::order::{is_stable_text_order, stable_text_order, texts};
use crate::remote_config::{ParamValueView, RemoteConfigParams, TutaRemoteConfig, params_of};
use crate::text::{byte_len, chars_of, contains_text, is_boundary_at, string_of, text_contains};
use crate::time::{
    Instant, event_time_to_utc, in_range, instant_lt, millis_instant, time_is_convertible,
};

verus! {

/// The name under which caldir knows this provider.
pub const PROVIDER_NAME: &'static str = "tuta";

/// The id part that marks Tuta's client-side birthday calendar.
pub const BIRTHDAY_CALENDAR_BASE_ID: &'static str = "clientOnly_birthdays";

// ------------------------------------------------------------- calendars
/// A calendar of the account as Tuta renders it: its id, name and colour.
#[derive(Debug, Clone, PartialEq, Eq)]
pub struct CalendarData {
    pub id: String,
    pub name: String,
    pub color: String,
}

pub struct CalendarDataView {
    pub id: Seq<char>,
    pub name: Seq<char>,
    pub color: Seq<char>,
}

impl View for CalendarData {
    type V = CalendarDataView;

    open spec fn view(&self) -> CalendarDataView {
        CalendarDataView { id: self.id@, name: self.name@, color: self.color@ }
    }
}

/// A calendar as the provider hands it to caldir.
#[derive(Debug, Clone, PartialEq, Eq)]
pub struct CalendarEntry {
    pub name: Option<String>,
    pub color: String,
    pub read_only: bool,
    pub remote: RemoteConfigParams,
}

pub struct CalendarEntryView {
    pub name: Option<Seq<char>>,
    pub color: Seq<char>,
    pub read_only: bool,
    pub remote: Seq<(Seq<char>, ParamValueView)>,
}

impl View for CalendarEntry {
    type V = CalendarEntryView;

    open spec fn view(&self) -> CalendarEntryView {
        CalendarEntryView {
            name: match self.name {
                Some(n) => Some(n@),
                None => None,
            },
            color: self.color@,
            read_only: self.read_only,
            remote: self.remote@,
        }
    }
}

pub open spec fn calendar_views(v: Seq<CalendarData>) -> Seq<CalendarDataView> {
    v.map_values(|c: CalendarData| c@)
}

pub open spec fn calendar_ids(cs: Seq<CalendarDataView>) -> Seq<Seq<char>> {
    cs.map_values(|c: CalendarDataView| c.id)
}

/// Whether the id is that of a birthday calendar, which is not listed.
pub open spec fn is_birthday_calendar(id: Seq<char>) -> bool {
    contains_text(id, BIRTHDAY_CALENDAR_BASE_ID@)
}

/// The calendars that are listed, in their order.
pub open spec fn listed_calendars(cs: Seq<CalendarDataView>) -> Seq<CalendarDataView>
    decreases cs.len(),
{
    if cs.len() == 0 {
        seq![]
    } else {
        let rest = listed_calendars(cs.drop_last());
        if is_birthday_calendar(cs.last().id) {
            rest
        } else {
            rest.push(cs.last())
        }
    }
}

/// Whether the calendar is listed: it is no birthday calendar.
pub fn listable_calendar(calendar: &CalendarData) -> (r: bool)
    ensures
        r == !is_birthday_calendar(calendar@.id),
{
    let id = chars_of(calendar.id.as_str());
    let birthday = chars_of(BIRTHDAY_CALENDAR_BASE_ID);
    !text_contains(&id, &birthday)
}

/// Whether the colour can be normalised: an eight-byte colour must not
/// split a character at its sixth byte.
pub open spec fn color_fits(color: Seq<char>) -> bool {
    byte_len(strip_hash(color)) == 8 ==> is_boundary_at(strip_hash(color), 6)
}

/// How a calendar of the account is handed to caldir: its name if it has
/// one, its colour as `#rrggbb`, writable, and linked to the account and
/// the calendar's id.
pub open spec fn entry_of(account: Seq<char>, c: CalendarDataView) -> CalendarEntryView {
    CalendarEntryView {
        name: non_empty_text(c.name),
        color: normalized_color(c.color),
        read_only: false,
        remote: params_of(account, c.id),
    }
}

/// The calendars of the account for caldir: birthday calendars left out,
/// the others sorted stably by id.
pub fn calendar_entries(account: &str, calendars: &Vec<CalendarData>) -> (r: Vec<CalendarEntry>)
    requires
        forall|i: int|
            0 <= i < listed_calendars(calendar_views(calendars@)).len() ==> color_fits(
                #[trigger] listed_calendars(calendar_views(calendars@))[i].color,
            ),
    ensures
        exists|perm: Seq<usize>|
            #[trigger] is_stable_text_order(
                calendar_ids(listed_calendars(calendar_views(calendars@))),
                perm,
            ) && r@.len() == perm.len() && forall|k: int|
                0 <= k < perm.len() ==> #[trigger] r@[k]@ == entry_of(
                    account@,
                    listed_calendars(calendar_views(calendars@))[perm[k] as int],
                ),
{
    let ghost cs = calendar_views(calendars@);
    let ghost listed = listed_calendars(cs);
    let birthday = chars_of(BIRTHDAY_CALENDAR_BASE_ID);
    let mut kept: Vec<usize> = Vec::new();
    let mut keys: Vec<Vec<char>> = Vec::new();
    for i in 0..calendars.len()
        invariant
            birthday@ == BIRTHDAY_CALENDAR_BASE_ID@,
            cs == calendar_views(calendars@),
            kept.len() == keys.len(),
            forall|k: int| 0 <= k < kept.len() ==> #[trigger] kept@[k] < i,
            Seq::new(kept.len() as nat, |k: int| cs[kept@[k] as int]) == listed_calendars(
                cs.take(i as int),
            ),
            texts(keys@) == Seq::new(kept.len() as nat, |k: int| cs[kept@[k] as int].id),
    {
        let id = chars_of(calendars[i].id.as_str());
        let ghost before = Seq::new(kept.len() as nat, |k: int| cs[kept@[k] as int]);
        assert(cs.take(i + 1).drop_last() =~= cs.take(i as int));
        assert(cs.take(i + 1).last() == cs[i as int]);
        let ghost keys_before = keys@;
        if !text_contains(&id, &birthday) {
            kept.push(i);
            assert(id@ == cs[i as int].id);
            keys.push(id);
            assert(texts(keys@) =~= texts(keys_before).push(cs[i as int].id));
            assert(Seq::new(kept.len() as nat, |k: int| cs[kept@[k] as int]) =~= before.push(
                cs[i as int],
            ));
            assert(texts(keys@) =~= Seq::new(kept.len() as nat, |k: int| cs[kept@[k] as int].id));
        }
    }
    assert(cs.take(calendars.len() as int) =~= cs);
    assert(texts(keys@) =~= calendar_ids(listed));
    let perm = stable_text_order(&keys);
    let mut out: Vec<CalendarEntry> = Vec::new();
    for j in 0..perm.len()
        invariant
            is_stable_text_order(calendar_ids(listed), perm@),
            listed.len() == kept.len(),
            cs == calendar_views(calendars@),
            listed == listed_calendars(cs),
            forall|k: int| 0 <= k < kept.len() ==> #[trigger] kept@[k] < calendars.len(),
            forall|k: int| 0 <= k < kept.len() ==> #[trigger] cs[kept@[k] as int] == listed[k],
            forall|k: int| 0 <= k < listed.len() ==> color_fits(#[trigger] listed[k].color),
            out.len() == j,
            forall|k: int| 0 <= k < j ==> #[trigger] out@[k]@ == entry_of(account@, listed[perm@[k] as int]),
    {
        assert(perm@[j as int] < listed.len());
        let at = kept[perm[j]];
        let c = &calendars[at];
        assert(cs[at as int] == listed[perm@[j as int] as int]);
        assert(c@ == listed[perm@[j as int] as int]);
        assert(color_fits(listed[perm@[j as int] as int].color));
        let remote = TutaRemoteConfig::new(account, c.id.as_str()).into_remote_config_params();
        let entry = CalendarEntry {
            name: non_empty(c.name.as_str()),
            color: normalize_color(c.color.as_str()),
            read_only: false,
            remote,
        };
        out.push(entry);
    }
    out
}

// ---------------------------------------------------------------- events
/// When an event ends: its end, or its start when it has none.
pub open spec fn end_or_start(e: EventView) -> EventTimeView {
    match e.end {
        Some(t) => t,
        None => e.start,
    }
}

/// Whether `ms` may be the instant of the time: one in chrono's range,
/// and the time's own instant where that does not depend on the machine.
pub open spec fn instant_of(t: EventTimeView, ms: int) -> bool {
    in_range(ms) && (known_instant(t) matches Some(k) ==> ms == k)
}

/// Whether an event from `start_ms` to `end_ms` overlaps the range: it
/// starts before the range ends and ends after the range starts.
pub open spec fn overlaps(start_ms: int, end_ms: int, from: Instant, to: Instant) -> bool {
    instant_lt(millis_instant(start_ms), to) && instant_lt(from, millis_instant(end_ms))
}

/// Whether an event from `start_ms` to `end_ms` overlaps the range.
pub fn overlap(start_ms: i64, end_ms: i64, from: Instant, to: Instant) -> (r: bool)
    ensures
        r == overlaps(start_ms as int, end_ms as int, from, to),
{
    Instant::from_millis(start_ms).before(to) && from.before(Instant::from_millis(end_ms))
}

impl Event {
    /// Whether the event overlaps the range, its times read as caldir reads
    /// them (`Event::occurs_in_range`): the range's end is exclusive, and
    /// an event without an end lasts no time.
    pub fn occurs_in_range(&self, from: Instant, to: Instant) -> (r: bool)
        requires
            time_is_convertible(self@.start),
            time_is_convertible(end_or_start(self@)),
        ensures
            exists|s: int, e: int|
                #![trigger instant_of(self@.start, s), instant_of(end_or_start(self@), e)]
                instant_of(self@.start, s) && instant_of(end_or_start(self@), e) && r
                    == overlaps(s, e, from, to),
    {
        let start = event_time_to_utc(&self.start);
        let end = match &self.end {
            Some(t) => event_time_to_utc(t),
            None => event_time_to_utc(&self.start),
        };
        let r = overlap(start, end, from, to);
        assert(instant_of(self@.start, start as int));
        assert(instant_of(end_or_start(self@), end as int));
        r
    }
}

/// Whether a Tuta event can be read for listing: its times convert without
/// leaving chrono's range.
pub open spec fn listable(src: TutaEventView) -> bool {
    let all_day = all_day_spec(src);
    &&& tuta_event_fits(src)
    &&& (caldir_time(src.start_time, src.start_time_zone, all_day) matches Ok(t)
        ==> time_is_convertible(t))
    &&& (caldir_time(src.end_time, src.end_time_zone, all_day) matches Ok(t)
        ==> time_is_convertible(t))
}

/// What listing a Tuta event gives: nothing for an event without an id or
/// one that does not convert; else the converted event, linked to its id,
/// if it recurs or overlaps the range.
pub open spec fn listed_outcome(src: TutaEventView, from: Instant, to: Instant, o: Option<EventView>) -> bool {
    match src.id {
        None => o is None,
        Some(id) => exists|c: Result<EventView, MappingError>|
            #[trigger] caldir_event_outcome(src, c) && match c {
                Err(_) => o is None,
                Ok(ev) => {
                    let linked = with_item_ref(ev, id_text(id));
                    if ev.recurrence is Some {
                        o == Some(linked)
                    } else {
                        exists|s: int, e: int|
                            #![trigger instant_of(ev.start, s), instant_of(end_or_start(ev), e)]
                            instant_of(ev.start, s) && instant_of(end_or_start(ev), e) && o == (
                            if overlaps(s, e, from, to) {
                                Some(linked)
                            } else {
                                None
                            })
                    }
                },
            },
    }
}

pub open spec fn opt_event_view(o: Option<Event>) -> Option<EventView> {
    match o {
        Some(e) => Some(e@),
        None => None,
    }
}

/// Lists one Tuta event.
pub fn listed_event(source: &TutaEvent, from: Instant, to: Instant) -> (r: Option<Event>)
    requires
        listable(source@),
    ensures
        listed_outcome(source@, from, to, opt_event_view(r)),
{
    let id = match &source.id {
        Some(id) => id,
        None => {
            return None;
        },
    };
    let converted = to_caldir_event(source);
    let ghost c = event_result_view(converted);
    assert(caldir_event_outcome(source@, c));
    match converted {
        Err(_) => None,
        Ok(mut event) => {
            let ghost ev = event@;
            let id_chars = id_to_string(id);
            let link = string_of(&id_chars);
            set_item_ref(&mut event, link.as_str());
            assert(event@ == with_item_ref(ev, id_text(id@)));
            if event.recurrence.is_some() {
                Some(event)
            } else {
                assert(time_is_convertible(event@.start));
                assert(end_or_start(event@) == end_or_start(ev));
                if event.occurs_in_range(from, to) {
                    Some(event)
                } else {
                    None
                }
            }
        },
    }
}

/// The events of both lists, each listed in turn.
pub open spec fn listed_events(outs: Seq<Option<EventView>>) -> Seq<EventView>
    decreases outs.len(),
{
    if outs.len() == 0 {
        seq![]
    } else {
        let rest = listed_events(outs.drop_last());
        match outs.last() {
            Some(e) => rest.push(e),
            None => rest,
        }
    }
}

pub open spec fn event_views(v: Seq<Event>) -> Seq<EventView> {
    v.map_values(|e: Event| e@)
}

/// The events of a Tuta calendar that caldir gets for a range: those of the
/// short list, then those of the long list, each listed as
/// [`listed_event`] lists it.
pub fn list_events(short_events: &Vec<TutaEvent>, long_events: &Vec<TutaEvent>, from: Instant, to: Instant) -> (r: Vec<Event>)
    requires
        forall|i: int| 0 <= i < short_events.len() ==> listable(#[trigger] short_events@[i]@),
        forall|i: int| 0 <= i < long_events.len() ==> listable(#[trigger] long_events@[i]@),
    ensures
        exists|outs: Seq<Option<EventView>>|
            outs.len() == short_events.len() + long_events.len() && (forall|i: int|
                0 <= i < outs.len() ==> listed_outcome(
                    #[trigger] (short_events@ + long_events@)[i]@,
                    from,
                    to,
                    outs[i],
                )) && event_views(r@) == listed_events(outs),
{
    let ghost all = short_events@ + long_events@;
    let ghost mut outs: Seq<Option<EventView>> = seq![];
    let mut events: Vec<Event> = Vec::new();
    for i in 0..short_events.len()
        invariant
            all == short_events@ + long_events@,
            forall|k: int| 0 <= k < short_events.len() ==> listable(#[trigger] short_events@[k]@),
            outs.len() == i,
            forall|k: int| 0 <= k < i ==> listed_outcome(#[trigger] all[k]@, from, to, outs[k]),
            event_views(events@) == listed_events(outs),
    {
        let o = listed_event(&short_events[i], from, to);
        let ghost before = outs;
        proof {
            outs = outs.push(opt_event_view(o));
        }
        assert(all[i as int] == short_events@[i as int]);
        assert(outs.drop_last() =~= before);
        if let Some(e) = o {
            events.push(e);
            assert(event_views(events@) =~= listed_events(before).push(outs.last()->0));
        }
    }
    for j in 0..long_events.len()
        invariant
            all == short_events@ + long_events@,
            forall|k: int| 0 <= k < long_events.len() ==> listable(#[trigger] long_events@[k]@),
            outs.len() == short_events.len() + j,
            forall|k: int| 0 <= k < outs.len() ==> listed_outcome(#[trigger] all[k]@, from, to, outs[k]),
            event_views(events@) == listed_events(outs),
    {
        let o = listed_event(&long_events[j], from, to);
        let ghost before = outs;
        proof {
            outs = outs.push(opt_event_view(o));
        }
        assert(all[short_events.len() + j] == long_events@[j as int]);
        assert(outs.drop_last() =~= before);
        if let Some(e) = o {
            events.push(e);
            assert(event_views(events@) =~= listed_events(before).push(outs.last()->0));
        }
    }
    events
}

} // verus!
