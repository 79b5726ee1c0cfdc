use tuta_calendar::alarms::UserAlarm;
use tuta_calendar::entity::{IdTuple, RepeatRule, ServerFields, TutaEvent};
use tuta_calendar::event::{Event, EventTime, Recurrence};
use tuta_calendar::fits::{
    caldir_event_convertible, color_normalizable, event_listable, reading_fits,
    referenced_triggers_ok, rrule_until_readable, rule_fits, time_convertible, trigger_splittable,
    tuta_event_convertible, tuta_time_convertible, until_readable,
};
use tuta_calendar::listing::{listable_calendar, CalendarData};
use tuta_calendar::time::{MAX_MS, MIN_MS};

fn tuta_event(start: u64, end: u64, zone: &str) -> TutaEvent {
    TutaEvent {
        id: None,
        owner_group: None,
        summary: String::new(),
        description: String::new(),
        location: String::new(),
        start_time: start,
        end_time: end,
        uid: Some("u".to_string()),
        hashed_uid: None,
        sequence: 0,
        recurrence_id: None,
        start_time_zone: Some(zone.to_string()),
        end_time_zone: Some(zone.to_string()),
        repeat_rule: None,
        alarm_infos: Vec::new(),
        attendees: Vec::new(),
        server: ServerFields::empty(),
    }
}

#[test]
fn ordinary_times_fit() {
    assert!(time_convertible(&EventTime::DateTimeUtc(0)));
    assert!(time_convertible(&EventTime::Date(20_652)));
    assert!(!time_convertible(&EventTime::DateTimeUtc(MAX_MS + 1)));
    assert!(!time_convertible(&EventTime::DateTimeFloating(MIN_MS)));
    assert!(reading_fits(1_784_369_400_000, Some("Europe/London"), false));
    let last = MAX_MS as u64;
    assert!(!reading_fits(last, Some("Asia/Tokyo"), false));
    assert!(reading_fits(last, Some("UTC"), false));
    assert!(tuta_event_convertible(&tuta_event(1_784_369_400_000, 1_784_371_200_000, "Europe/London")));
    assert!(event_listable(&tuta_event(1_784_369_400_000, 1_784_371_200_000, "Europe/London")));
    assert!(!tuta_event_convertible(&tuta_event(last, last, "Asia/Tokyo")));
}

#[test]
fn rule_ends_must_fit() {
    let mut rule = RepeatRule {
        frequency: 0,
        end_type: 2,
        end_value: Some(MIN_MS),
        interval: 1,
        time_zone: String::new(),
        excluded_dates: vec![5],
        advanced_rules: Vec::new(),
    };
    assert!(!rule_fits(&rule, false));
    rule.end_value = Some(1_784_369_400_000);
    assert!(rule_fits(&rule, false));
}

#[test]
fn rrule_untils_must_fit() {
    assert!(until_readable("20260718", "UTC", true));
    assert!(until_readable("20260718T100000", "Europe/London", false));
    assert!(rrule_until_readable("FREQ=DAILY;UNTIL=20260718T100000Z", "UTC", false));
    let mut event = Event::new("x", EventTime::DateTimeUtc(1_784_369_400_000));
    event.recurrence = Some(Recurrence::new("FREQ=DAILY;COUNT=3"));
    assert!(caldir_event_convertible(&event));
    event.end = Some(EventTime::DateTimeUtc(MAX_MS + 5));
    assert!(!caldir_event_convertible(&event));
}

#[test]
fn colours_and_triggers_split_where_they_must() {
    assert!(color_normalizable("#8bc34aff"));
    assert!(color_normalizable("green"));
    // Five ASCII bytes then a three-byte character: byte 6 is inside it.
    assert!(!color_normalizable("abcde€"));
    assert!(color_normalizable("abcdef€"));
    assert!(trigger_splittable("10M"));
    assert!(trigger_splittable(""));
    assert!(!trigger_splittable("1é"));
}

#[test]
fn birthday_calendars_are_not_listed() {
    let c = |id: &str| CalendarData { id: id.to_string(), name: String::new(), color: String::new() };
    assert!(listable_calendar(&c("abc")));
    assert!(!listable_calendar(&c("x_clientOnly_birthdays")));
}

#[test]
fn only_referenced_triggers_must_split() {
    let mut event = tuta_event(1_784_369_400_000, 1_784_373_000_000, "UTC");
    event.alarm_infos = vec![IdTuple::new("alarms".to_string(), "a1".to_string())];
    let events = vec![event];
    let alarm = |element: &str, trigger: &str| UserAlarm {
        id: Some(IdTuple::new("alarms".to_string(), element.to_string())),
        trigger: trigger.to_string(),
    };
    assert!(referenced_triggers_ok("alarms", &events, &vec![alarm("a1", "10M"), alarm("a2", "1é")]));
    assert!(!referenced_triggers_ok("alarms", &events, &vec![alarm("a1", "1é")]));
    assert!(referenced_triggers_ok("other", &events, &vec![alarm("a1", "1é")]));
}

#[test]
fn tuta_times_must_lie_well_inside_the_range() {
    assert!(tuta_time_convertible(&EventTime::DateTimeUtc(MAX_MS)));
    assert!(!tuta_time_convertible(&EventTime::DateTimeUtc(MAX_MS + 1)));
    assert!(tuta_time_convertible(&EventTime::DateTimeFloating(MIN_MS)));
    let zoned = |datetime: i64| EventTime::DateTimeZoned { datetime, tzid: "Europe/Berlin".to_string() };
    assert!(tuta_time_convertible(&zoned(1_784_369_400_000)));
    assert!(!tuta_time_convertible(&zoned(MIN_MS)));
    assert!(tuta_time_convertible(&EventTime::Date(20_000)));
}
