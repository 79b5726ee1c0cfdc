use tuta_calendar::entity::{AdvancedRule, RepeatRule, ServerFields, TutaEvent};
use tuta_calendar::event::{Event, EventTime, Recurrence, XProperty};
use tuta_calendar::mapping::{
    by_rule_name, by_rule_type, from_caldir_event, from_tuta_time, non_empty, parse_until,
    recurrence_from_tuta, recurrence_to_tuta, to_caldir_event, to_tuta_time, MappingError,
};

fn sample_tuta_event() -> TutaEvent {
    TutaEvent {
        id: None,
        owner_group: None,
        summary: "Standup".to_string(),
        description: "Daily sync".to_string(),
        location: "Room 1".to_string(),
        start_time: 1_784_369_400_000,
        end_time: 1_784_371_200_000,
        uid: Some("standup@example.com".to_string()),
        hashed_uid: None,
        sequence: 2,
        recurrence_id: None,
        start_time_zone: Some("Europe/London".to_string()),
        end_time_zone: Some("Europe/London".to_string()),
        repeat_rule: Some(RepeatRule {
            frequency: 1,
            end_type: 1,
            end_value: Some(10),
            interval: 1,
            time_zone: "Europe/London".to_string(),
            excluded_dates: Vec::new(),
            advanced_rules: vec![AdvancedRule { rule_type: 2, interval: "MO".to_string() }],
        }),
        alarm_infos: Vec::new(),
        attendees: Vec::new(),
        server: ServerFields::empty(),
    }
}

/// 2026-07-18T10:00 as a wall-clock reading.
const JULY_18_10H: i64 = 1_784_368_800_000;
const JULY_18_11H: i64 = 1_784_372_400_000;
const HOUR: i64 = 3_600_000;

#[test]
fn maps_tuta_fields_and_recurrence() {
    let event = to_caldir_event(&sample_tuta_event()).unwrap();
    assert_eq!(event.uid.as_str(), "standup@example.com");
    assert_eq!(event.summary.as_deref(), Some("Standup"));
    assert_eq!(event.recurrence.unwrap().rrule, "FREQ=WEEKLY;INTERVAL=1;COUNT=10;BYDAY=MO");
}

#[test]
fn maps_all_day_event() {
    let mut source = sample_tuta_event();
    source.start_time = 1_784_332_800_000;
    source.end_time = 1_784_419_200_000;
    source.repeat_rule = None;
    assert!(matches!(to_caldir_event(&source).unwrap().start, EventTime::Date(_)));
}

#[test]
fn caldir_round_trip_preserves_core_fields() {
    let mut event = Event::new(
        "Planning",
        EventTime::DateTimeZoned { datetime: JULY_18_10H, tzid: "Europe/London".to_string() },
    );
    event.uid = "planning@example.com".to_string();
    event.end = Some(EventTime::DateTimeZoned {
        datetime: JULY_18_11H,
        tzid: "Europe/London".to_string(),
    });
    event.recurrence = Some(Recurrence {
        rrule: "FREQ=MONTHLY;INTERVAL=2;BYDAY=MO;BYSETPOS=1".to_string(),
        exdates: vec![EventTime::DateTimeUtc(1_788_771_600_000)],
        rdates: Vec::new(),
    });
    event.x_properties.push(XProperty::new("X-LOCAL", "kept-local"));
    let restored = to_caldir_event(&from_caldir_event(&event).unwrap()).unwrap();
    assert_eq!(restored.uid, event.uid);
    assert_eq!(restored.summary, event.summary);
    assert_eq!(
        restored.recurrence.as_ref().unwrap().rrule,
        event.recurrence.as_ref().unwrap().rrule
    );
}

#[test]
fn zoned_times_are_read_in_their_zone() {
    // 09:10 UTC is 10:10 in London in summer.
    let t = from_tuta_time(1_784_369_400_000, Some("Europe/London"), false).unwrap();
    assert_eq!(
        t,
        EventTime::DateTimeZoned {
            datetime: 1_784_369_400_000 + HOUR,
            tzid: "Europe/London".to_string()
        }
    );
    assert_eq!(
        to_tuta_time(&t).unwrap(),
        (1_784_369_400_000, Some("Europe/London".to_string()))
    );
    assert_eq!(
        from_tuta_time(1_784_369_400_000, Some("UTC"), false).unwrap(),
        EventTime::DateTimeUtc(1_784_369_400_000)
    );
    assert_eq!(
        from_tuta_time(1_784_369_400_000, None, false).unwrap(),
        EventTime::DateTimeUtc(1_784_369_400_000)
    );
    assert_eq!(
        from_tuta_time(1_784_332_800_000, Some("Europe/London"), true).unwrap(),
        EventTime::Date(20_652)
    );
}

#[test]
fn time_errors() {
    assert_eq!(from_tuta_time(u64::MAX, None, false), Err(MappingError::TimestampExceedsI64));
    assert_eq!(
        from_tuta_time(9_000_000_000_000_000, None, false),
        Err(MappingError::TimestampOutOfRange)
    );
    assert_eq!(from_tuta_time(0, Some("Mars/Olympus"), false), Err(MappingError::UnknownTimezone));
    assert_eq!(to_tuta_time(&EventTime::DateTimeUtc(-1)), Err(MappingError::BeforeEpoch));
    assert_eq!(to_tuta_time(&EventTime::Date(20_652)).unwrap(), (1_784_332_800_000, Some("UTC".to_string())));
    assert_eq!(to_tuta_time(&EventTime::DateTimeFloating(5)).unwrap(), (5, None));
}

#[test]
fn rule_names_and_types() {
    assert_eq!(by_rule_name(2), Ok("BYDAY".to_string()));
    assert_eq!(by_rule_name(8), Ok("WKST".to_string()));
    assert_eq!(by_rule_name(9), Err(MappingError::UnknownAdvancedRule));
    assert_eq!(by_rule_type("BYSETPOS"), Some(7));
    assert_eq!(by_rule_type("BYSECOND"), None);
    assert_eq!(non_empty(""), None);
    assert_eq!(non_empty("x"), Some("x".to_string()));
}

#[test]
fn until_values() {
    // A date UNTIL ends the day after; a UTC UNTIL one second after.
    assert_eq!(parse_until("20260718", "UTC", true), Ok(1_784_419_200_000));
    assert_eq!(parse_until("20260718T100000Z", "UTC", false), Ok(JULY_18_10H + 1000));
    assert_eq!(parse_until("20260718T110000", "Europe/London", false), Ok(JULY_18_10H + 1000));
    assert_eq!(parse_until("20161231T235960Z", "UTC", false), Ok(1_483_228_800_000));
    assert_eq!(parse_until("2026", "UTC", true), Err(MappingError::InvalidDateUntil));
    assert_eq!(parse_until("nonsenseZ", "UTC", false), Err(MappingError::InvalidUtcUntil));
    assert_eq!(parse_until("20260718T110000", "Nowhere", false), Err(MappingError::UnknownRecurrenceTimezone));
}

#[test]
fn rules_round_trip_through_rrule_text() {
    let rule = RepeatRule {
        frequency: 2,
        end_type: 1,
        end_value: Some(4),
        interval: 3,
        time_zone: "UTC".to_string(),
        excluded_dates: Vec::new(),
        advanced_rules: vec![
            AdvancedRule { rule_type: 7, interval: "1".to_string() },
            AdvancedRule { rule_type: 2, interval: "MO".to_string() },
            AdvancedRule { rule_type: 2, interval: "TU".to_string() },
        ],
    };
    let rec = recurrence_from_tuta(&rule, false).unwrap();
    assert_eq!(rec.rrule, "FREQ=MONTHLY;INTERVAL=3;COUNT=4;BYDAY=MO,TU;BYSETPOS=1");
    let back = recurrence_to_tuta(&rec, "UTC", false).unwrap();
    assert_eq!(back.frequency, 2);
    assert_eq!(back.interval, 3);
    assert_eq!(back.end_type, 1);
    assert_eq!(back.end_value, Some(4));
    assert_eq!(back.advanced_rules.len(), 3);
    assert_eq!(recurrence_from_tuta(&back, false).unwrap().rrule, rec.rrule);
}

#[test]
fn unknown_rule_parts_are_errors() {
    let mut rule = sample_tuta_event().repeat_rule.unwrap();
    rule.frequency = 9;
    assert_eq!(recurrence_from_tuta(&rule, false), Err(MappingError::UnknownFrequency));
    let rec = Recurrence::new("FREQ=SECONDLY");
    assert_eq!(recurrence_to_tuta(&rec, "UTC", false), Err(MappingError::UnsupportedFrequency));
    let rec = Recurrence::new("INTERVAL=2");
    assert_eq!(recurrence_to_tuta(&rec, "UTC", false), Err(MappingError::MissingFrequency));
    let rec = Recurrence::new("FREQ");
    assert_eq!(recurrence_to_tuta(&rec, "UTC", false), Err(MappingError::InvalidRrulePart));
}

#[test]
fn events_without_uid_are_refused() {
    let mut source = sample_tuta_event();
    source.uid = None;
    assert_eq!(to_caldir_event(&source), Err(MappingError::MissingUid));
}

#[test]
fn until_ends_are_written_inclusive() {
    let mut rule = sample_tuta_event().repeat_rule.unwrap();
    rule.end_type = 2;
    rule.end_value = Some(JULY_18_10H + 1000);
    rule.advanced_rules.clear();
    assert_eq!(
        recurrence_from_tuta(&rule, false).unwrap().rrule,
        "FREQ=WEEKLY;INTERVAL=1;UNTIL=20260718T100000Z"
    );
    rule.end_value = Some(1_784_419_200_000);
    assert_eq!(recurrence_from_tuta(&rule, true).unwrap().rrule, "FREQ=WEEKLY;INTERVAL=1;UNTIL=20260718");
    rule.end_value = None;
    assert_eq!(recurrence_from_tuta(&rule, true), Err(MappingError::UntilWithoutValue));
    rule.end_type = 1;
    assert_eq!(recurrence_from_tuta(&rule, true), Err(MappingError::CountWithoutValue));
    rule.end_type = 5;
    assert_eq!(recurrence_from_tuta(&rule, true), Err(MappingError::UnknownEndType));
}

#[test]
fn excluded_dates_come_back_sorted() {
    let mut rule = sample_tuta_event().repeat_rule.unwrap();
    rule.time_zone = "UTC".to_string();
    rule.excluded_dates = vec![JULY_18_11H as u64, JULY_18_10H as u64];
    let rec = recurrence_from_tuta(&rule, false).unwrap();
    assert_eq!(
        rec.exdates,
        vec![EventTime::DateTimeUtc(JULY_18_10H), EventTime::DateTimeUtc(JULY_18_11H)]
    );
    let back = recurrence_to_tuta(&rec, "UTC", false).unwrap();
    assert_eq!(back.excluded_dates, vec![JULY_18_10H as u64, JULY_18_11H as u64]);
}

#[test]
fn until_ends_read_back_down_to_the_second_or_day() {
    let mut rule = sample_tuta_event().repeat_rule.unwrap();
    rule.end_type = 2;
    rule.advanced_rules.clear();
    rule.end_value = Some(JULY_18_10H + 1_500);
    let rec = recurrence_from_tuta(&rule, false).unwrap();
    assert_eq!(rec.rrule, "FREQ=WEEKLY;INTERVAL=1;UNTIL=20260718T100000Z");
    let back = recurrence_to_tuta(&rec, "UTC", false).unwrap();
    assert_eq!(back.end_type, 2);
    assert_eq!(back.end_value, Some(JULY_18_10H + 1000));
    assert_eq!(recurrence_from_tuta(&back, false).unwrap().rrule, rec.rrule);
    rule.end_value = Some(1_784_419_200_000 + 3_600_000);
    let rec = recurrence_from_tuta(&rule, true).unwrap();
    assert_eq!(rec.rrule, "FREQ=WEEKLY;INTERVAL=1;UNTIL=20260718");
    let back = recurrence_to_tuta(&rec, "UTC", true).unwrap();
    assert_eq!(back.end_value, Some(1_784_419_200_000));
    assert_eq!(recurrence_from_tuta(&back, true).unwrap().rrule, rec.rrule);
}

#[test]
fn new_events_get_a_fresh_caldir_uid() {
    let a = tuta_calendar::event::Event::new("a", EventTime::Date(20_000));
    let b = tuta_calendar::event::Event::new("a", EventTime::Date(20_000));
    assert_eq!(a.uid.len(), 43);
    assert!(a.uid.ends_with("@caldir"));
    assert_ne!(a.uid, b.uid);
}

#[test]
fn mapped_events_carry_no_server_fields() {
    let event = Event::new("Standup", EventTime::DateTimeUtc(JULY_18_10H));
    let te = from_caldir_event(&event).unwrap();
    assert_eq!(te.server, ServerFields::empty());
    assert_eq!(te.uid, Some(event.uid.clone()));
}

#[test]
fn shaped_rrules_are_written_back_unchanged() {
    for (text, all_day) in [
        ("FREQ=MONTHLY;INTERVAL=2;UNTIL=20260718T100000Z;BYDAY=MO,TU;BYSETPOS=1", false),
        ("FREQ=DAILY;INTERVAL=1;UNTIL=20260718", true),
        ("FREQ=YEARLY;INTERVAL=3;COUNT=10;BYMONTH=7", false),
        ("FREQ=WEEKLY;INTERVAL=1", false),
    ] {
        let rule = recurrence_to_tuta(&Recurrence::new(text), "UTC", all_day).unwrap();
        assert_eq!(recurrence_from_tuta(&rule, all_day).unwrap().rrule, text);
    }
}
