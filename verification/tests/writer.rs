use tuta_calendar::entity::{CalendarGroupRoot, IdTuple, TutaEvent};
use tuta_calendar::event::{Event, EventTime, Recurrence, XProperty};
use tuta_calendar::mapping::{from_caldir_event, MappingError};
use tuta_calendar::writer::{
    delete_target, element_id_for, element_shift_range, exclude_override, finish_write,
    hashed_uid, is_long_event, parse_item_ref, parse_raw_item_ref, prepare_create,
    prepare_for_create, prepare_update, random_event_element_id, requires_recreate, validate,
    WriteError, DAYS_SHIFTED_MS, LONG_EVENT_DURATION_MS,
};

const START_MS: i64 = 1_784_000_000_000;

fn event(duration: u64, recurring: bool) -> TutaEvent {
    let mut event = from_caldir_event(&Event::new("Test", EventTime::DateTimeUtc(START_MS))).unwrap();
    event.end_time = event.start_time + duration;
    if recurring {
        event.repeat_rule = Some(
            from_caldir_event(&{
                let mut source = Event::new("Recurring", EventTime::DateTimeUtc(START_MS));
                source.recurrence = Some(Recurrence::new("FREQ=DAILY"));
                source
            })
            .unwrap()
            .repeat_rule
            .unwrap(),
        );
    }
    event
}

#[test]
fn element_id_matches_base64url_decimal_recipe() {
    assert_eq!(element_id_for(1_000, -15), "985");
    assert_eq!(element_id_for(1_000, 15), "1015");
}

#[test]
fn classifies_recurring_and_long_events() {
    assert!(!is_long_event(&event(60_000, false)));
    assert!(is_long_event(&event(LONG_EVENT_DURATION_MS + 1, false)));
    assert!(is_long_event(&event(60_000, true)));
}

#[test]
fn recreate_decision_covers_id_affecting_changes() {
    let calendar = "calendar";
    let mut existing = event(60_000, false);
    existing.owner_group = Some(calendar.to_string());
    let unchanged = existing.clone();
    assert!(!requires_recreate(&existing, &unchanged, calendar));

    let mut moved = unchanged.clone();
    moved.start_time += 60_000;
    assert!(requires_recreate(&existing, &moved, calendar));

    let became_long = event(LONG_EVENT_DURATION_MS + 1, false);
    assert!(requires_recreate(&existing, &became_long, calendar));

    assert!(requires_recreate(&existing, &unchanged, "other-calendar"));
}

#[test]
fn hashes_uid_with_sha256() {
    assert_eq!(
        hashed_uid("abc"),
        vec![
            186, 120, 22, 191, 143, 1, 207, 234, 65, 65, 64, 222, 93, 174, 34, 35, 176, 3, 97,
            163, 150, 23, 122, 156, 180, 16, 255, 97, 242, 0, 21, 173,
        ]
    );
}

#[test]
fn exactly_fifteen_days_is_short() {
    assert!(!is_long_event(&event(LONG_EVENT_DURATION_MS, false)));
}

#[test]
fn element_ids_never_go_below_zero() {
    assert_eq!(element_id_for(10, -15), "0");
    assert_eq!(element_id_for(u64::MAX, i64::MAX), "27670116110564327422");
    assert_eq!(element_shift_range(1_000), (-1_000, DAYS_SHIFTED_MS));
    assert_eq!(element_shift_range(u64::MAX), (-DAYS_SHIFTED_MS, DAYS_SHIFTED_MS));
}

#[test]
fn random_element_ids_lie_within_the_shift() {
    for _ in 0..20 {
        let id: u128 = random_event_element_id(START_MS as u64).parse().unwrap();
        assert!(id >= (START_MS - DAYS_SHIFTED_MS) as u128);
        assert!(id < (START_MS + DAYS_SHIFTED_MS) as u128);
    }
    let early: u128 = random_event_element_id(5).parse().unwrap();
    assert!(early < (5 + DAYS_SHIFTED_MS) as u128);
}

#[test]
fn validation_errors() {
    let mut e = event(60_000, false);
    assert_eq!(validate(&e), Ok(()));
    e.end_time = e.start_time;
    assert_eq!(validate(&e), Err(WriteError::EndNotAfterStart));
    let mut e = event(60_000, false);
    e.start_time = 0;
    e.end_time = 10;
    assert_eq!(validate(&e), Err(WriteError::StartAtEpoch));
}

#[test]
fn item_refs_are_parsed() {
    assert_eq!(
        parse_raw_item_ref("list/element"),
        Ok(IdTuple::new("list".to_string(), "element".to_string()))
    );
    assert_eq!(parse_raw_item_ref("a/b/c"), Ok(IdTuple::new("a".to_string(), "b/c".to_string())));
    assert_eq!(parse_raw_item_ref("nolist"), Err(WriteError::InvalidItemRef));
    assert_eq!(parse_raw_item_ref("/x"), Err(WriteError::InvalidItemRef));
    assert_eq!(parse_raw_item_ref("x/"), Err(WriteError::InvalidItemRef));
    let mut ev = Event::new("x", EventTime::DateTimeUtc(START_MS));
    assert_eq!(parse_item_ref(&ev), Err(WriteError::MissingItemRef));
    assert_eq!(delete_target(&ev), Ok(None));
    ev.x_properties.push(XProperty::new("X-TUTA-ITEM", "l/e"));
    assert_eq!(parse_item_ref(&ev), Ok(IdTuple::new("l".to_string(), "e".to_string())));
    assert_eq!(delete_target(&ev), Ok(Some(IdTuple::new("l".to_string(), "e".to_string()))));
    let mut bad = Event::new("x", EventTime::DateTimeUtc(START_MS));
    bad.x_properties.push(XProperty::new("x-tuta-item", "broken"));
    assert_eq!(delete_target(&bad), Err(WriteError::InvalidItemRef));
}

#[test]
fn creation_places_the_event_in_its_list() {
    let root = CalendarGroupRoot { short_events: "short".to_string(), long_events: "long".to_string() };
    let source = event(60_000, false);
    let uid = source.uid.clone().unwrap();
    let created = prepare_for_create(source, "cal", &root, "123".to_string());
    assert_eq!(created.id, Some(IdTuple::new("short".to_string(), "123".to_string())));
    assert_eq!(created.owner_group, Some("cal".to_string()));
    assert_eq!(created.hashed_uid, Some(hashed_uid(&uid)));
    let long = prepare_for_create(event(60_000, true), "cal", &root, "9".to_string());
    assert_eq!(long.id, Some(IdTuple::new("long".to_string(), "9".to_string())));
}

#[test]
fn create_checks_the_mapped_event() {
    let ok = Event::new("x", EventTime::DateTimeUtc(START_MS));
    let te = prepare_create(&ok).unwrap();
    assert_eq!(te.end_time, START_MS as u64 + 3_600_000);
    let early = Event::new("x", EventTime::DateTimeUtc(-5));
    assert_eq!(prepare_create(&early), Err(WriteError::Mapping(MappingError::BeforeEpoch)));
    let at_epoch = Event::new("x", EventTime::DateTimeUtc(0));
    assert_eq!(prepare_create(&at_epoch), Err(WriteError::StartAtEpoch));
}

#[test]
fn updates_keep_identity_and_refuse_invitations() {
    let mut existing = event(60_000, false);
    existing.id = Some(IdTuple::new("short".to_string(), "1".to_string()));
    existing.owner_group = Some("cal".to_string());
    existing.uid = Some("keep".to_string());
    existing.sequence = 4;
    existing.alarm_infos = vec![
        IdTuple::new("mine".to_string(), "a".to_string()),
        IdTuple::new("theirs".to_string(), "b".to_string()),
    ];
    let mut edited = Event::new("Edited", EventTime::DateTimeUtc(START_MS));
    edited.end = Some(EventTime::DateTimeUtc(START_MS + 60_000));
    let plan = prepare_update(existing.clone(), &edited, "cal").unwrap();
    assert!(!plan.recreate);
    assert_eq!(plan.remote.summary, "Edited");
    assert_eq!(plan.remote.uid, Some("keep".to_string()));
    assert_eq!(plan.remote.sequence, 5);
    assert_eq!(plan.remote.id, existing.id);
    // An edit in place keeps every alarm, the user's own included.
    assert_eq!(plan.remote.alarm_infos, existing.alarm_infos);

    let mut moved = edited.clone();
    moved.start = EventTime::DateTimeUtc(START_MS + 1_000);
    let plan = prepare_update(existing.clone(), &moved, "cal").unwrap();
    assert!(plan.recreate);
    assert_eq!(plan.remote.id, None);
    assert!(plan.remote.alarm_infos.is_empty());

    let mut invitation = existing;
    invitation.attendees.push("bob@example.com".to_string());
    assert_eq!(
        prepare_update(invitation, &edited, "cal"),
        Err(WriteError::InvitationWithAttendees)
    );
}

#[test]
fn finishing_a_write_records_the_id() {
    let mut ev = Event::new("x", EventTime::DateTimeUtc(START_MS));
    ev.last_modified = Some(1);
    let mut remote = event(60_000, false);
    assert_eq!(finish_write(&mut ev, &remote), Err(WriteError::MissingId));
    remote.id = Some(IdTuple::new("l".to_string(), "e".to_string()));
    remote.sequence = i64::MAX;
    assert_eq!(finish_write(&mut ev, &remote), Ok(()));
    assert_eq!(ev.sequence, i32::MAX);
    assert_eq!(ev.last_modified, None);
    assert_eq!(ev.x_properties[0].value, "l/e");
}

#[test]
fn overrides_are_excluded_on_the_master() {
    let mut master = event(60_000, true);
    master.uid = Some("series".to_string());
    master.sequence = 1;
    let mut other = event(60_000, false);
    other.uid = Some("series".to_string());
    let rid = START_MS as u64 + 86_400_000;
    let updated = exclude_override(vec![other.clone(), master.clone()], "series", rid).unwrap();
    assert_eq!(updated.repeat_rule.as_ref().unwrap().excluded_dates, vec![rid]);
    assert_eq!(updated.sequence, 2);
    assert_eq!(exclude_override(vec![updated.clone()], "series", rid), None);
    let earlier = exclude_override(vec![updated], "series", rid - 86_400_000).unwrap();
    assert_eq!(earlier.repeat_rule.unwrap().excluded_dates, vec![rid - 86_400_000, rid]);
    assert_eq!(exclude_override(vec![master], "other", rid), None);
}
