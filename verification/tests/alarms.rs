use tuta_calendar::alarms::{
    current_time_millis, millis_or_zero,
    alarm_target, owner_key_version, plan_alarm, push_key_request, reminder_from_trigger,
    reminders_for_events, repeat_rule_for_alarm, retain_other_users_alarms, sort_reminders,
    trigger_from_reminder, AlarmError, PushIdentifierData, UserAlarm,
};
use tuta_calendar::entity::{AdvancedRule, IdTuple, RepeatRule, ServerFields, TutaEvent};
use tuta_calendar::event::Reminder;

fn id(list: &str, element: &str) -> IdTuple {
    IdTuple::new(list.to_string(), element.to_string())
}

fn tuta_event(id_: Option<IdTuple>, alarms: Vec<IdTuple>) -> TutaEvent {
    TutaEvent {
        id: id_,
        owner_group: None,
        summary: "Test".to_string(),
        description: String::new(),
        location: String::new(),
        start_time: 1_784_000_000_000,
        end_time: 1_784_003_600_000,
        uid: Some("uid".to_string()),
        hashed_uid: None,
        sequence: 0,
        recurrence_id: None,
        start_time_zone: Some("UTC".to_string()),
        end_time_zone: Some("UTC".to_string()),
        repeat_rule: None,
        alarm_infos: alarms,
        attendees: Vec::new(),
        server: ServerFields::empty(),
    }
}

#[test]
fn parses_tuta_alarm_units() {
    assert_eq!(reminder_from_trigger("10M"), Some(Reminder::from_minutes(10)));
    assert_eq!(reminder_from_trigger("2H"), Some(Reminder::from_minutes(120)));
    assert_eq!(reminder_from_trigger("3D"), Some(Reminder::from_minutes(4_320)));
    assert_eq!(reminder_from_trigger("1W"), Some(Reminder::from_minutes(10_080)));
}

#[test]
fn rejects_invalid_tuta_alarm_triggers() {
    assert_eq!(reminder_from_trigger(""), None);
    assert_eq!(reminder_from_trigger("tenM"), None);
    assert_eq!(reminder_from_trigger("-1H"), None);
    assert_eq!(reminder_from_trigger("1S"), None);
    assert_eq!(reminder_from_trigger("1H30M"), None);
}

#[test]
fn formats_reminders_using_largest_exact_tuta_unit() {
    assert_eq!(trigger_from_reminder(Reminder::from_minutes(0)), "0M");
    assert_eq!(trigger_from_reminder(Reminder::from_minutes(10)), "10M");
    assert_eq!(trigger_from_reminder(Reminder::from_minutes(60)), "1H");
    assert_eq!(trigger_from_reminder(Reminder::from_minutes(90)), "90M");
    assert_eq!(trigger_from_reminder(Reminder::from_minutes(2_880)), "2D");
    assert_eq!(trigger_from_reminder(Reminder::from_minutes(20_160)), "2W");
}

#[test]
fn trigger_round_trip_on_sample_minutes() {
    for minutes in [0_i64, 1, 59, 60, 61, 1_440, 4_320, 10_080, 20_160, 123_456] {
        let r = Reminder::from_minutes(minutes);
        assert_eq!(reminder_from_trigger(&trigger_from_reminder(r)), Some(r));
    }
}

#[test]
fn trigger_drops_the_sign_and_overflow_is_rejected() {
    assert_eq!(trigger_from_reminder(Reminder::from_minutes(-120)), "2H");
    assert_eq!(trigger_from_reminder(Reminder::from_minutes(i64::MIN)), "9223372036854775808M");
    assert_eq!(reminder_from_trigger("9223372036854775807W"), None);
    assert_eq!(reminder_from_trigger("M"), None);
}

#[test]
fn other_users_alarms_are_kept() {
    let event = tuta_event(None, vec![id("mine", "a"), id("theirs", "b"), id("mine", "c")]);
    assert_eq!(retain_other_users_alarms(Some("mine"), &event), vec![id("theirs", "b")]);
    assert_eq!(retain_other_users_alarms(None, &event).len(), 3);
}

#[test]
fn reminders_are_collected_per_event_and_sorted() {
    let events = vec![
        tuta_event(Some(id("short", "e1")), vec![id("alarms", "a1"), id("alarms", "a2"), id("other", "a3")]),
        tuta_event(None, vec![id("alarms", "a1")]),
        tuta_event(Some(id("short", "e2")), vec![]),
    ];
    let alarms = vec![
        UserAlarm { id: Some(id("alarms", "a1")), trigger: "10M".to_string() },
        UserAlarm { id: Some(id("alarms", "a2")), trigger: "1D".to_string() },
        UserAlarm { id: Some(id("other", "a3")), trigger: "5M".to_string() },
    ];
    let result = reminders_for_events(Some("alarms"), &events, &alarms);
    assert_eq!(result.len(), 2);
    assert_eq!(result[0].0, "short/e1");
    assert_eq!(result[0].1, vec![Reminder::from_minutes(1_440), Reminder::from_minutes(10)]);
    assert_eq!(result[1].0, "short/e2");
    assert!(result[1].1.is_empty());
    assert!(reminders_for_events(None, &events, &alarms).is_empty());
    assert!(reminders_for_events(Some("unused"), &events, &alarms).is_empty());
}

#[test]
fn unsupported_triggers_are_left_out() {
    let events = vec![tuta_event(Some(id("s", "e")), vec![id("alarms", "x")])];
    let alarms = vec![UserAlarm { id: Some(id("alarms", "x")), trigger: "1S".to_string() }];
    let result = reminders_for_events(Some("alarms"), &events, &alarms);
    assert_eq!(result.len(), 1);
    assert!(result[0].1.is_empty());
}

#[test]
fn sorting_reminders_is_stable_latest_first() {
    let raw = vec![
        Reminder::from_minutes(5),
        Reminder::from_minutes(60),
        Reminder::from_minutes(5),
        Reminder::from_minutes(-10),
    ];
    assert_eq!(
        sort_reminders(&raw),
        vec![
            Reminder::from_minutes(60),
            Reminder::from_minutes(5),
            Reminder::from_minutes(5),
            Reminder::from_minutes(-10)
        ]
    );
}

#[test]
fn alarm_target_checks_in_order() {
    let reminders = vec![Reminder::from_minutes(10)];
    let with_id = tuta_event(Some(id("l", "e")), vec![]);
    let without_id = tuta_event(None, vec![]);
    assert_eq!(alarm_target(&Vec::new(), None, &without_id, None), Ok(None));
    assert_eq!(alarm_target(&reminders, None, &with_id, Some("u")), Err(AlarmError::NoAlarmList));
    assert_eq!(alarm_target(&reminders, Some("a"), &without_id, Some("u")), Err(AlarmError::EventWithoutId));
    assert_eq!(alarm_target(&reminders, Some("a"), &with_id, None), Err(AlarmError::UserWithoutId));
    assert_eq!(alarm_target(&reminders, Some("a"), &with_id, Some("u")), Ok(Some(id("l", "e"))));
    assert_eq!(AlarmError::NoAlarmList.message(), "Tuta account has no reminder list");
}

#[test]
fn key_versions_beyond_i64_are_refused() {
    assert_eq!(owner_key_version(7), Ok(7));
    assert_eq!(owner_key_version(u64::MAX), Err(AlarmError::KeyVersionTooLarge));
}

#[test]
fn planned_alarm_has_trigger_and_decimal_identifier() {
    let plan = plan_alarm(Reminder::from_minutes(2_880));
    assert_eq!(plan.trigger, "2D");
    assert!(!plan.alarm_identifier.is_empty());
    assert!(plan.alarm_identifier.bytes().all(|b| b.is_ascii_digit()));
}

#[test]
fn push_devices_are_checked() {
    let full = PushIdentifierData {
        id: Some(id("push", "p")),
        owner_group: Some("group".to_string()),
        owner_key_version: Some(3),
        owner_enc_session_key: Some(vec![1, 2]),
    };
    let req = push_key_request(full.clone()).unwrap().unwrap();
    assert_eq!(req.id, id("push", "p"));
    assert_eq!(req.owner_group, "group");
    assert_eq!(req.owner_key_version, 3);
    assert_eq!(req.owner_enc_session_key, vec![1, 2]);
    assert_eq!(push_key_request(PushIdentifierData { id: None, ..full.clone() }), Ok(None));
    assert_eq!(
        push_key_request(PushIdentifierData { owner_group: None, ..full.clone() }),
        Err(AlarmError::PushDeviceWithoutOwnerGroup)
    );
    assert_eq!(
        push_key_request(PushIdentifierData { owner_key_version: None, ..full.clone() }),
        Err(AlarmError::PushDeviceWithoutKeyVersion)
    );
    assert_eq!(
        push_key_request(PushIdentifierData { owner_key_version: Some(-1), ..full.clone() }),
        Err(AlarmError::PushDeviceNegativeKeyVersion)
    );
    assert_eq!(
        push_key_request(PushIdentifierData { owner_enc_session_key: None, ..full }),
        Err(AlarmError::PushDeviceWithoutSessionKey)
    );
}

#[test]
fn alarm_repeat_rule_is_a_copy() {
    let rule = RepeatRule {
        frequency: 2,
        end_type: 1,
        end_value: Some(4),
        interval: 3,
        time_zone: "Europe/Berlin".to_string(),
        excluded_dates: vec![1, 2],
        advanced_rules: vec![AdvancedRule { rule_type: 2, interval: "MO".to_string() }],
    };
    assert_eq!(repeat_rule_for_alarm(&rule), rule);
}

#[test]
fn clock_values_before_the_epoch_become_zero() {
    assert_eq!(millis_or_zero(-5), 0);
    assert_eq!(millis_or_zero(1_784_000_000_000), 1_784_000_000_000);
    assert!(current_time_millis() > 1_700_000_000_000);
}
