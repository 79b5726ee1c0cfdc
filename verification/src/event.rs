//! The caldir side of the mapping: an event as caldir exchanges it with a
//! provider, holding what the provider reads and writes, as plain values.
//!
//! Times are held as integers: a date as days since 1970-01-01, an instant
//! as milliseconds since the epoch, and a wall-clock time as the
//! milliseconds that the same wall-clock reading would have in UTC.

use vstd::prelude::*;

verus! {

/// A non-standard `X-` property of an event.
#[derive(Debug, Clone, PartialEq, Eq)]
pub struct XProperty {
    pub name: String,
    pub value: String,
    pub params: Vec<(String, String)>,
}

pub struct XPropertyView {
    pub name: Seq<char>,
    pub value: Seq<char>,
    pub params: Seq<(Seq<char>, Seq<char>)>,
}

pub open spec fn pair_view(p: (String, String)) -> (Seq<char>, Seq<char>) {
    (p.0@, p.1@)
}

impl View for XProperty {
    type V = XPropertyView;

    open spec fn view(&self) -> XPropertyView {
        XPropertyView {
            name: self.name@,
            value: self.value@,
            params: self.params@.map_values(|p: (String, String)| pair_view(p)),
        }
    }
}

impl XProperty {
    /// A property with the given name and value and no parameters.
    pub fn new(name: &str, value: &str) -> (r: XProperty)
        ensures
            r@.name == name@,
            r@.value == value@,
            r@.params.len() == 0,
    {
        XProperty { name: name.to_owned(), value: value.to_owned(), params: Vec::new() }
    }
}

/// A reminder, as the minutes before the event's start at which it fires.
#[derive(Debug, Clone, Copy, PartialEq, Eq, PartialOrd, Ord)]
pub struct Reminder {
    pub minutes_before_start: i64,
}

impl Reminder {
    pub fn from_minutes(minutes: i64) -> (r: Reminder)
        ensures
            r.minutes_before_start == minutes,
    {
        Reminder { minutes_before_start: minutes }
    }
}

/// When an event starts or ends.
#[derive(Debug, Clone, PartialEq, Eq)]
pub enum EventTime {
    /// An all-day date, as days since 1970-01-01.
    Date(i32),
    /// An instant, as milliseconds since the epoch.
    DateTimeUtc(i64),
    /// A wall-clock time without a zone.
    DateTimeFloating(i64),
    /// A wall-clock time in the named IANA zone.
    DateTimeZoned { datetime: i64, tzid: String },
}

pub enum EventTimeView {
    Date(i32),
    DateTimeUtc(i64),
    DateTimeFloating(i64),
    DateTimeZoned { datetime: i64, tzid: Seq<char> },
}

impl View for EventTime {
    type V = EventTimeView;

    open spec fn view(&self) -> EventTimeView {
        match self {
            EventTime::Date(d) => EventTimeView::Date(*d),
            EventTime::DateTimeUtc(t) => EventTimeView::DateTimeUtc(*t),
            EventTime::DateTimeFloating(t) => EventTimeView::DateTimeFloating(*t),
            EventTime::DateTimeZoned { datetime, tzid } => EventTimeView::DateTimeZoned {
                datetime: *datetime,
                tzid: tzid@,
            },
        }
    }
}

impl EventTime {
    pub fn is_date(&self) -> (r: bool)
        ensures
            r == (self@ is Date),
    {
        match self {
            EventTime::Date(_) => true,
            _ => false,
        }
    }

    /// A copy of this time.
    pub fn duplicate(&self) -> (r: EventTime)
        ensures
            r@ == self@,
    {
        match self {
            EventTime::Date(d) => EventTime::Date(*d),
            EventTime::DateTimeUtc(t) => EventTime::DateTimeUtc(*t),
            EventTime::DateTimeFloating(t) => EventTime::DateTimeFloating(*t),
            EventTime::DateTimeZoned { datetime, tzid } => EventTime::DateTimeZoned {
                datetime: *datetime,
                tzid: tzid.clone(),
            },
        }
    }
}

pub open spec fn times_view(v: Seq<EventTime>) -> Seq<EventTimeView> {
    v.map_values(|t: EventTime| t@)
}

/// A recurrence rule with its exceptions.
#[derive(Debug, Clone, PartialEq, Eq)]
pub struct Recurrence {
    /// The RRULE value, e.g. `FREQ=WEEKLY;BYDAY=MO`.
    pub rrule: String,
    pub exdates: Vec<EventTime>,
    pub rdates: Vec<EventTime>,
}

pub struct RecurrenceView {
    pub rrule: Seq<char>,
    pub exdates: Seq<EventTimeView>,
    pub rdates: Seq<EventTimeView>,
}

impl View for Recurrence {
    type V = RecurrenceView;

    open spec fn view(&self) -> RecurrenceView {
        RecurrenceView {
            rrule: self.rrule@,
            exdates: times_view(self.exdates@),
            rdates: times_view(self.rdates@),
        }
    }
}

impl Recurrence {
    /// A recurrence with the given rule and no exceptions.
    pub fn new(rrule: &str) -> (r: Recurrence)
        ensures
            r@.rrule == rrule@,
            r@.exdates.len() == 0,
            r@.rdates.len() == 0,
    {
        Recurrence { rrule: rrule.to_owned(), exdates: Vec::new(), rdates: Vec::new() }
    }
}

pub open spec fn opt_text(o: Option<String>) -> Option<Seq<char>> {
    match o {
        Some(s) => Some(s@),
        None => None,
    }
}

pub open spec fn opt_time(o: Option<EventTime>) -> Option<EventTimeView> {
    match o {
        Some(t) => Some(t@),
        None => None,
    }
}

pub open spec fn opt_recurrence(o: Option<Recurrence>) -> Option<RecurrenceView> {
    match o {
        Some(r) => Some(r@),
        None => None,
    }
}

/// An event, with the fields that the provider reads or writes.
#[derive(Debug, Clone, PartialEq, Eq)]
pub struct Event {
    pub uid: String,
    pub summary: Option<String>,
    pub description: Option<String>,
    pub location: Option<String>,
    pub start: EventTime,
    pub end: Option<EventTime>,
    pub recurrence: Option<Recurrence>,
    pub recurrence_id: Option<EventTime>,
    pub reminders: Vec<Reminder>,
    pub x_properties: Vec<XProperty>,
    /// When the event was last modified, in milliseconds since the epoch.
    pub last_modified: Option<i64>,
    pub sequence: i32,
}

pub struct EventView {
    pub uid: Seq<char>,
    pub summary: Option<Seq<char>>,
    pub description: Option<Seq<char>>,
    pub location: Option<Seq<char>>,
    pub start: EventTimeView,
    pub end: Option<EventTimeView>,
    pub recurrence: Option<RecurrenceView>,
    pub recurrence_id: Option<EventTimeView>,
    pub reminders: Seq<Reminder>,
    pub x_properties: Seq<XPropertyView>,
    pub last_modified: Option<i64>,
    pub sequence: i32,
}

impl View for Event {
    type V = EventView;

    open spec fn view(&self) -> EventView {
        EventView {
            uid: self.uid@,
            summary: opt_text(self.summary),
            description: opt_text(self.description),
            location: opt_text(self.location),
            start: self.start@,
            end: opt_time(self.end),
            recurrence: opt_recurrence(self.recurrence),
            recurrence_id: opt_time(self.recurrence_id),
            reminders: self.reminders@,
            x_properties: self.x_properties@.map_values(|p: XProperty| p@),
            last_modified: self.last_modified,
            sequence: self.sequence,
        }
    }
}

/// A fresh uid, the one that caldir gives a new event
/// (`caldir_core::Event::new`, whose uid is a random version-4 UUID in
/// hyphenated form followed by `@caldir`): 43 characters, the last seven
/// `@caldir`. Which UUID it is is left open.
#[verifier::external_body]
fn fresh_uid() -> (r: String)
    ensures
        r@.len() == 43,
        r@.subrange(36, 43) == "@caldir"@,
{
    caldir_core::Event::new("", caldir_core::EventTime::Date(chrono::NaiveDate::MIN)).uid.as_str().to_owned()
}

impl Event {
    /// An event with the given summary and start, a fresh uid (as caldir
    /// gives a new event) and nothing else set.
    pub fn new(summary: &str, start: EventTime) -> (r: Event)
        ensures
            r@.uid.len() == 43,
            r@.uid.subrange(36, 43) == "@caldir"@,
            r@.summary == Some(summary@),
            r@.description is None,
            r@.location is None,
            r@.start == start@,
            r@.end is None,
            r@.recurrence is None,
            r@.recurrence_id is None,
            r@.reminders.len() == 0,
            r@.x_properties.len() == 0,
            r@.last_modified is None,
            r@.sequence == 0,
    {
        Event {
            uid: fresh_uid(),
            summary: Some(summary.to_owned()),
            description: None,
            location: None,
            start,
            end: None,
            recurrence: None,
            recurrence_id: None,
            reminders: Vec::new(),
            x_properties: Vec::new(),
            last_modified: None,
            sequence: 0,
        }
    }
}

} // verus!
