//! What converting, writing and listing events promise of whole classes of
//! events: whole UTC days are all-day events, an all-day event without an
//! end lasts one day, a moved event is recreated, and an event is listed by
//! its start and its end.

use vstd::prelude::*;

use crate::entity::TutaEventView;
use crate::event::{EventTimeView, EventView};
use crate::listing::{end_or_start, instant_of, listed_outcome, overlaps};
use crate::mapping::{caldir_event_outcome, known_instant, tuta_event_matches};
use crate::time::{Instant, instant_lt, millis_instant};
use crate::writer::{
    element_id_text, long_event, planned_remote, prepared_for_create, recreate_needed, shift_range,
};

verus! {

/// A Tuta event that starts and ends at UTC midnight, and ends after it
/// starts, is an all-day event however many days it spans: it reads as
/// the date of its start to the date of its end.
pub proof fn lemma_whole_days_read_as_dates(src: TutaEventView, ev: EventView)
    requires
        src.start_time % 86_400_000 == 0,
        src.end_time % 86_400_000 == 0,
        src.end_time > src.start_time,
        caldir_event_outcome(src, Ok(ev)),
    ensures
        ev.start == EventTimeView::Date((src.start_time / 86_400_000) as i32),
        ev.end == Some(EventTimeView::Date((src.end_time / 86_400_000) as i32)),
{
}

/// A caldir event that starts on a date and has no end is written as a
/// Tuta event one day long.
pub proof fn lemma_date_without_end_lasts_a_day(ev: EventView, te: TutaEventView)
    requires
        tuta_event_matches(ev, te),
        ev.start is Date,
        ev.end is None,
    ensures
        te.end_time == te.start_time + 86_400_000,
{
}

/// A timed caldir event without an end is written as a Tuta event one hour
/// long.
pub proof fn lemma_time_without_end_lasts_an_hour(ev: EventView, te: TutaEventView)
    requires
        tuta_event_matches(ev, te),
        !(ev.start is Date),
        ev.end is None,
    ensures
        te.end_time == te.start_time + 3_600_000,
{
}

/// An edit that moves an event's start, earlier or later, deletes and
/// recreates the entity, whatever else changes.
pub proof fn lemma_moved_events_are_recreated(
    existing: TutaEventView,
    updated: TutaEventView,
    target: Seq<char>,
)
    requires
        existing.start_time != updated.start_time,
    ensures
        recreate_needed(existing, updated, target),
{
}

/// An edit of an event in another calendar deletes and recreates the
/// entity.
pub proof fn lemma_other_calendars_are_recreated(
    existing: TutaEventView,
    updated: TutaEventView,
    target: Seq<char>,
)
    requires
        existing.owner_group != Some(target),
    ensures
        recreate_needed(existing, updated, target),
{
}

/// Whether an event's times fall at the instants `s` and `e`, where these
/// do not depend on the machine.
pub open spec fn fixed_instants(start: EventTimeView, end: EventTimeView, s: int, e: int) -> bool {
    known_instant(start) == Some(s) && known_instant(end) == Some(e)
}

/// Whether the range holds some of the time from `s` to `e`: it starts
/// before the range ends and ends after the range starts.
pub open spec fn meets_range(s: int, e: int, from: Instant, to: Instant) -> bool {
    instant_lt(millis_instant(s), to) && instant_lt(from, millis_instant(e))
}

/// An event with an end whose start and end instants do not depend on the
/// machine occurs in a range exactly when it starts before the range ends
/// and its end (not its start) comes after the range starts: the result
/// that `Event::occurs_in_range` may give.
pub proof fn lemma_occurs_by_start_and_end(
    ev: EventView,
    end: EventTimeView,
    s: int,
    e: int,
    from: Instant,
    to: Instant,
    r: bool,
)
    requires
        ev.end == Some(end),
        fixed_instants(ev.start, end, s, e),
        exists|s2: int, e2: int|
            #![trigger instant_of(ev.start, s2), instant_of(end_or_start(ev), e2)]
            instant_of(ev.start, s2) && instant_of(end_or_start(ev), e2) && r == overlaps(
                s2,
                e2,
                from,
                to,
            ),
    ensures
        r == meets_range(s, e, from, to),
{
}

/// A Tuta event with an id and no repeat rule, whose start and end read
/// at instants that do not depend on the machine, is listed for a range
/// exactly when it starts before the range ends and ends after the range
/// starts.
pub proof fn lemma_listed_by_start_and_end(
    src: TutaEventView,
    ev: EventView,
    s: int,
    e: int,
    from: Instant,
    to: Instant,
    o: Option<EventView>,
)
    requires
        src.id is Some,
        src.repeat_rule is None,
        caldir_event_outcome(src, Ok(ev)),
        fixed_instants(ev.start, ev.end->0, s, e),
        listed_outcome(src, from, to, o),
    ensures
        ev.end is Some,
        o is Some <==> meets_range(s, e, from, to),
{
    let c = choose|c: Result<EventView, crate::mapping::MappingError>|
        #[trigger] caldir_event_outcome(src, c) && match c {
            Err(_) => o is None,
            Ok(ev2) => {
                let linked = crate::content::with_item_ref(ev2, crate::alarms::id_text(src.id->0));
                if ev2.recurrence is Some {
                    o == Some(linked)
                } else {
                    exists|s2: int, e2: int|
                        #![trigger instant_of(ev2.start, s2), instant_of(end_or_start(ev2), e2)]
                        instant_of(ev2.start, s2) && instant_of(end_or_start(ev2), e2) && o == (
                        if overlaps(s2, e2, from, to) {
                            Some(linked)
                        } else {
                            None
                        })
                }
            },
        };
    assert(c == Ok::<EventView, crate::mapping::MappingError>(ev));
}


/// A Tuta event that does not both start and end at UTC midnight, ending
/// after it starts, is a timed event: it reads with a time, not a date.
pub proof fn lemma_other_spans_read_as_times(src: TutaEventView, ev: EventView)
    requires
        !(src.start_time % 86_400_000 == 0 && src.end_time % 86_400_000 == 0 && src.end_time
            > src.start_time),
        caldir_event_outcome(src, Ok(ev)),
    ensures
        !(ev.start is Date),
        ev.end matches Some(t) && !(t is Date),
{
}

/// A timed Tuta event in UTC (or without a zone) reads as the same
/// instants.
pub proof fn lemma_utc_times_read_as_instants(src: TutaEventView, ev: EventView)
    requires
        !(src.start_time % 86_400_000 == 0 && src.end_time % 86_400_000 == 0 && src.end_time
            > src.start_time),
        src.start_time_zone == Some("UTC"@) || src.start_time_zone is None,
        src.end_time_zone == Some("UTC"@) || src.end_time_zone is None,
        caldir_event_outcome(src, Ok(ev)),
    ensures
        ev.start == EventTimeView::DateTimeUtc(src.start_time as i64),
        ev.end == Some(EventTimeView::DateTimeUtc(src.end_time as i64)),
{
}

/// An edit that keeps the calendar, the start and the list (short or long)
/// of an event is written in place.
pub proof fn lemma_unmoved_events_are_updated_in_place(
    existing: TutaEventView,
    updated: TutaEventView,
    target: Seq<char>,
)
    requires
        existing.owner_group == Some(target),
        existing.start_time == updated.start_time,
        long_event(existing) == long_event(updated),
    ensures
        !recreate_needed(existing, updated, target),
{
}

/// An event belongs in the list of long events exactly when it recurs or
/// ends more than 15 days after it starts.
pub proof fn lemma_long_events(e: TutaEventView)
    ensures
        long_event(e) <==> (e.repeat_rule is Some || e.end_time > e.start_time + 1_296_000_000),
{
}

/// An edit that moves an event between the short and the long list
/// deletes and recreates the entity.
pub proof fn lemma_relisted_events_are_recreated(
    existing: TutaEventView,
    updated: TutaEventView,
    target: Seq<char>,
)
    requires
        long_event(existing) != long_event(updated),
    ensures
        recreate_needed(existing, updated, target),
{
}

/// An event without an end, whose start instant does not depend on the
/// machine, occurs in a range exactly when that instant lies inside it:
/// before the range ends and after it starts.
pub proof fn lemma_occurs_without_end(
    ev: EventView,
    s: int,
    from: Instant,
    to: Instant,
    r: bool,
)
    requires
        ev.end is None,
        known_instant(ev.start) == Some(s),
        exists|s2: int, e2: int|
            #![trigger instant_of(ev.start, s2), instant_of(end_or_start(ev), e2)]
            instant_of(ev.start, s2) && instant_of(end_or_start(ev), e2) && r == overlaps(
                s2,
                e2,
                from,
                to,
            ),
    ensures
        r == meets_range(s, s, from, to),
{
}


/// How a caldir event's start is written for Tuta: a date as UTC midnight
/// of that day in zone `UTC`; a UTC time as its instant in zone `UTC`; a
/// floating time as the same wall-clock reading taken as UTC, with no
/// zone; a time in a known zone as its instant, with that zone.
pub proof fn lemma_start_written_as(ev: EventView, te: TutaEventView)
    requires
        tuta_event_matches(ev, te),
    ensures
        ev.start matches EventTimeView::Date(d) ==> te.start_time == d * 86_400_000
            && te.start_time_zone == Some("UTC"@),
        ev.start matches EventTimeView::DateTimeUtc(ms) ==> te.start_time == ms
            && te.start_time_zone == Some("UTC"@),
        ev.start matches EventTimeView::DateTimeFloating(ms) ==> te.start_time == ms
            && te.start_time_zone is None,
        ev.start matches EventTimeView::DateTimeZoned { datetime, tzid } ==> te.start_time_zone
            == Some(tzid) && (crate::time::spec_tz_known(tzid) ==> te.start_time
            == crate::time::spec_zoned_to_utc(tzid, datetime)),
{
}

/// A created event goes into the calendar's list of long events when it
/// recurs or lasts more than 15 days, and into the list of short events
/// otherwise, under the element id it was given.
pub proof fn lemma_created_in_its_list(
    e: TutaEventView,
    calendar_id: Seq<char>,
    short_list: Seq<char>,
    long_list: Seq<char>,
    element_id: Seq<char>,
)
    ensures
        (e.repeat_rule is Some || e.end_time > e.start_time + 1_296_000_000) ==> prepared_for_create(
            e,
            calendar_id,
            short_list,
            long_list,
            element_id,
        ).id == Some(crate::entity::IdTupleView { list_id: long_list, element_id }),
        !(e.repeat_rule is Some || e.end_time > e.start_time + 1_296_000_000) ==> prepared_for_create(
            e,
            calendar_id,
            short_list,
            long_list,
            element_id,
        ).id == Some(crate::entity::IdTupleView { list_id: short_list, element_id }),
        prepared_for_create(e, calendar_id, short_list, long_list, element_id).owner_group == Some(
            calendar_id,
        ),
{
}


/// A new event's element id is the decimal number of its start moved by
/// the shift, or zero where that falls before the epoch.
pub proof fn lemma_element_id_is_shifted_start(start_ms: u64, shift_ms: i64)
    ensures
        crate::text::all_digits(element_id_text(start_ms, shift_ms)),
        crate::text::digits_value(element_id_text(start_ms, shift_ms)) == if start_ms + shift_ms
            < 0 {
            0
        } else {
            start_ms + shift_ms
        },
{
    let v = if start_ms + shift_ms < 0 {
        0nat
    } else {
        (start_ms + shift_ms) as nat
    };
    crate::text::lemma_dec_digits(v);
}

/// The shift of a new event's element id is drawn from up to 15 days
/// before its start (not before the epoch) to 15 days after it.
pub proof fn lemma_shift_range(start_ms: u64)
    ensures
        shift_range(start_ms).1 == 1_296_000_000,
        shift_range(start_ms).0 == -(if start_ms < 1_296_000_000 {
            start_ms as int
        } else {
            1_296_000_000int
        }),
{
}


/// A Tuta event reads with its uid and summary, its description and
/// location where they are not empty (none where they are), no reminders
/// or properties, no modification time, and its sequence where it fits in
/// an `i32`.
pub proof fn lemma_read_fields(src: TutaEventView, ev: EventView)
    requires
        caldir_event_outcome(src, Ok(ev)),
    ensures
        src.uid == Some(ev.uid),
        ev.summary == Some(src.summary),
        ev.description == (if src.description.len() == 0 {
            None
        } else {
            Some(src.description)
        }),
        ev.location == (if src.location.len() == 0 {
            None
        } else {
            Some(src.location)
        }),
        ev.reminders.len() == 0,
        ev.x_properties.len() == 0,
        ev.last_modified is None,
        i32::MIN <= src.sequence <= i32::MAX ==> ev.sequence == src.sequence,
{
}

/// A caldir event is written with its uid, its summary, description and
/// location (empty where it has none), its sequence, no id, owner, alarms
/// or attendees.
pub proof fn lemma_written_fields(ev: EventView, te: TutaEventView)
    requires
        tuta_event_matches(ev, te),
    ensures
        te.uid == Some(ev.uid),
        te.summary == (if ev.summary is Some {
            ev.summary->0
        } else {
            Seq::<char>::empty()
        }),
        te.description == (if ev.description is Some {
            ev.description->0
        } else {
            Seq::<char>::empty()
        }),
        te.location == (if ev.location is Some {
            ev.location->0
        } else {
            Seq::<char>::empty()
        }),
        te.sequence == ev.sequence,
        te.id is None,
        te.owner_group is None,
        te.alarm_infos.len() == 0,
        te.attendee_count == 0,
{
}

/// An update keeps the entity's uid and uid hash and raises its sequence by
/// one (staying at the largest value); in place it keeps the entity's id
/// and owner.
pub proof fn lemma_update_keeps_identity(
    te: TutaEventView,
    existing: TutaEventView,
    recreate: bool,
)
    ensures
        planned_remote(te, existing, recreate).uid == existing.uid,
        planned_remote(te, existing, recreate).hashed_uid == existing.hashed_uid,
        existing.sequence < i64::MAX ==> planned_remote(te, existing, recreate).sequence
            == existing.sequence + 1,
        existing.sequence == i64::MAX ==> planned_remote(te, existing, recreate).sequence
            == existing.sequence,
        !recreate ==> planned_remote(te, existing, recreate).id == existing.id
            && planned_remote(te, existing, recreate).owner_group == existing.owner_group,
        planned_remote(te, existing, recreate).start_time == te.start_time,
        planned_remote(te, existing, recreate).end_time == te.end_time,
        planned_remote(te, existing, recreate).summary == te.summary,
{
}

} // verus!
