use tuta_calendar::entity::{IdTuple, RepeatRule, ServerFields, TutaEvent};
use tuta_calendar::event::{Event, EventTime};
use tuta_calendar::listing::{calendar_entries, list_events, listed_event, overlap, CalendarData};
use tuta_calendar::remote_config::{ParamValue, TutaRemoteConfig};
use tuta_calendar::time::{parse_rfc3339, Instant};

fn at(text: &str) -> Instant {
    parse_rfc3339(text).unwrap()
}

#[test]
fn range_boundaries_are_end_exclusive() {
    let start = chrono::DateTime::parse_from_rfc3339("2026-08-01T00:00:00Z").unwrap().timestamp_millis();
    let event = Event::new("Boundary", EventTime::DateTimeUtc(start));
    let from = at("2026-07-01T00:00:00Z");
    let to = at("2026-08-01T00:00:00Z");
    assert!(!event.occurs_in_range(from, to));
}

#[test]
fn overlap_needs_start_before_end_of_range_and_end_after_its_start() {
    let from = at("2026-07-01T00:00:00Z");
    let to = at("2026-08-01T00:00:00Z");
    let july_10 = 1_783_641_600_000;
    assert!(overlap(july_10, july_10 + 1, from, to));
    let from_ms = 1_782_864_000_000;
    assert!(!overlap(from_ms - 10, from_ms, from, to));
    assert!(overlap(from_ms - 10, from_ms + 1, from, to));
    // A fraction of a millisecond after the boundary still counts.
    let to_ms = 1_785_542_400_000;
    assert!(overlap(to_ms, to_ms + 1, from, at("2026-08-01T00:00:00.0000001Z")));
}

#[test]
fn instants_order_like_chrono() {
    assert_eq!(Instant::from_millis(-1), Instant { secs: -1, nanos: 999_000_000 });
    assert_eq!(Instant::from_millis(1_500), Instant { secs: 1, nanos: 500_000_000 });
    assert!(Instant::from_millis(-1).before(Instant::from_millis(0)));
    assert_eq!(at("1970-01-01T00:00:01+01:00"), Instant { secs: -3_599, nanos: 0 });
    assert_eq!(parse_rfc3339("yesterday"), None);
}

fn calendar(id: &str, name: &str, color: &str) -> CalendarData {
    CalendarData { id: id.to_string(), name: name.to_string(), color: color.to_string() }
}

#[test]
fn calendars_are_sorted_without_birthdays() {
    let calendars = vec![
        calendar("zeta", "Work", "#8bc34aff"),
        calendar("abc_clientOnly_birthdays", "Birthdays", "ff0000"),
        calendar("alpha", "", "green"),
    ];
    let entries = calendar_entries("alice@tuta.com", &calendars);
    assert_eq!(entries.len(), 2);
    assert_eq!(entries[0].name, None);
    assert_eq!(entries[0].color, "green");
    assert!(!entries[0].read_only);
    let remote = TutaRemoteConfig::try_from(&entries[0].remote).unwrap();
    assert_eq!(remote.tuta_account, "alice@tuta.com");
    assert_eq!(remote.tuta_calendar, "alpha");
    assert_eq!(entries[1].name, Some("Work".to_string()));
    assert_eq!(entries[1].color, "#8bc34a");
    assert_eq!(entries[1].remote.entries[1].1, ParamValue::Text("zeta".to_string()));
}

fn tuta_event(element: Option<&str>, start: u64, end: u64, recurring: bool) -> TutaEvent {
    TutaEvent {
        id: element.map(|e| IdTuple::new("short".to_string(), e.to_string())),
        owner_group: None,
        summary: "S".to_string(),
        description: String::new(),
        location: String::new(),
        start_time: start,
        end_time: end,
        uid: Some(format!("uid-{start}")),
        hashed_uid: None,
        sequence: 0,
        recurrence_id: None,
        start_time_zone: Some("UTC".to_string()),
        end_time_zone: Some("UTC".to_string()),
        repeat_rule: if recurring {
            Some(RepeatRule {
                frequency: 0,
                end_type: 0,
                end_value: None,
                interval: 1,
                time_zone: "UTC".to_string(),
                excluded_dates: Vec::new(),
                advanced_rules: Vec::new(),
            })
        } else {
            None
        },
        alarm_infos: Vec::new(),
        attendees: Vec::new(),
        server: ServerFields::empty(),
    }
}

#[test]
fn events_in_range_or_recurring_are_listed_with_their_id() {
    let from = at("2026-07-01T00:00:00Z");
    let to = at("2026-08-01T00:00:00Z");
    let inside = 1_783_641_600_000;
    let before = 1_700_000_000_000;
    let short = vec![
        tuta_event(Some("in"), inside + 60_000, inside + 120_000, false),
        tuta_event(Some("out"), before, before + 60_000, false),
        tuta_event(None, inside + 60_000, inside + 120_000, false),
    ];
    let mut broken = tuta_event(Some("broken"), inside + 60_000, inside + 120_000, false);
    broken.uid = None;
    let long = vec![tuta_event(Some("series"), before, before + 60_000, true), broken];
    let events = list_events(&short, &long, from, to);
    assert_eq!(events.len(), 2);
    assert_eq!(events[0].x_properties[0].value, "short/in");
    assert_eq!(events[0].last_modified, None);
    assert_eq!(events[1].x_properties[0].value, "short/series");
    assert!(events[1].recurrence.is_some());
    assert!(listed_event(&short[1], from, to).is_none());
}
