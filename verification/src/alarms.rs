//! Tuta reminders: the trigger format (`<n>M`, `<n>H`, `<n>D`, `<n>W`), the
//! reminders that belong to each loaded event, and the alarms that an edit
//! keeps.

use vstd::prelude::*;

use crate::entity::{
    AdvancedRule, IdTuple, IdTupleView, RepeatRule, TutaEvent, advanced_view, ids_view,
};
use crate::event::Reminder;
use crate::order::{is_stable_order, stable_order};
use crate::time::{MAX_MS, in_range, now_millis};
use crate::writer::{element_id_text, random_event_element_id, shift_range};
use crate::text::{
    all_digits, append_chars, chars_eq, chars_of, dec, decimal_u64, digits_value, lemma_dec_digits,
    parse_i64, string_of,
};

verus! {

pub const MINUTES_PER_HOUR: i64 = 60;

pub const MINUTES_PER_DAY: i64 = 1440;

pub const MINUTES_PER_WEEK: i64 = 10080;

/// The minutes that one trigger unit stands for.
pub open spec fn unit_minutes(c: char) -> Option<int> {
    if c == 'M' {
        Some(1)
    } else if c == 'H' {
        Some(60)
    } else if c == 'D' {
        Some(1440)
    } else if c == 'W' {
        Some(10080)
    } else {
        None
    }
}

/// The minutes before start that a Tuta trigger denotes: a run of decimal
/// digits followed by one unit, within the range of `i64`.
pub open spec fn trigger_minutes(t: Seq<char>) -> Option<i64> {
    if t.len() == 0 {
        None
    } else {
        let value = t.drop_last();
        if value.len() == 0 || !all_digits(value) || digits_value(value) > i64::MAX {
            None
        } else {
            match unit_minutes(t.last()) {
                Some(m) => if digits_value(value) * m <= i64::MAX {
                    Some((digits_value(value) * m) as i64)
                } else {
                    None
                },
                None => None,
            }
        }
    }
}

/// A trigger whose last character is ASCII can be split before that
/// character.
pub open spec fn splittable_trigger(t: Seq<char>) -> bool {
    t.len() > 0 ==> (t.last() as u32) < 0x80
}

/// Parses a Tuta reminder trigger such as `10M` or `2H`.
pub fn reminder_from_trigger(trigger: &str) -> (r: Option<Reminder>)
    requires
        splittable_trigger(trigger@),
    ensures
        match trigger_minutes(trigger@) {
            Some(m) => r == Some(Reminder { minutes_before_start: m }),
            None => r is None,
        },
{
    let t = chars_of(trigger);
    if t.len() == 0 {
        return None;
    }
    let mut value: Vec<char> = Vec::new();
    for i in 0..t.len() - 1
        invariant
            t.len() > 0,
            value@ =~= t@.take(i as int),
    {
        value.push(t[i]);
    }
    assert(value@ =~= t@.drop_last());
    let unit = t[t.len() - 1];
    if value.len() == 0 {
        return None;
    }
    let mut digits = true;
    for i in 0..value.len()
        invariant
            digits == forall|j: int| 0 <= j < i ==> '0' <= #[trigger] value@[j] <= '9',
    {
        if !(value[i] >= '0' && value[i] <= '9') {
            digits = false;
        }
    }
    if !digits {
        return None;
    }
    assert(all_digits(value@));
    let parsed = parse_i64(&value);
    let n = match parsed {
        Some(n) => n,
        None => {
            return None;
        },
    };
    assert(n == digits_value(value@));
    let multiplier: i64 = if unit == 'M' {
        1
    } else if unit == 'H' {
        MINUTES_PER_HOUR
    } else if unit == 'D' {
        MINUTES_PER_DAY
    } else if unit == 'W' {
        MINUTES_PER_WEEK
    } else {
        return None;
    };
    match n.checked_mul(multiplier) {
        Some(m) => Some(Reminder::from_minutes(m)),
        None => None,
    }
}

pub open spec fn abs(i: i64) -> nat {
    if i < 0 {
        (-(i as int)) as nat
    } else {
        i as nat
    }
}

/// The trigger for a reminder, in the largest unit that divides its
/// minutes exactly (minutes for zero); the sign of the minutes is dropped.
pub open spec fn trigger_text(minutes: i64) -> Seq<char> {
    let m = abs(minutes);
    if m != 0 && m % 10080 == 0 {
        dec(m / 10080).push('W')
    } else if m != 0 && m % 1440 == 0 {
        dec(m / 1440).push('D')
    } else if m != 0 && m % 60 == 0 {
        dec(m / 60).push('H')
    } else {
        dec(m).push('M')
    }
}

/// Formats a reminder as a Tuta trigger, in the largest exact unit.
pub fn trigger_from_reminder(reminder: Reminder) -> (r: String)
    ensures
        r@ == trigger_text(reminder.minutes_before_start),
{
    let m = reminder.minutes_before_start;
    let minutes: u64 = if m == i64::MIN {
        9223372036854775808u64
    } else if m < 0 {
        (-m) as u64
    } else {
        m as u64
    };
    let hour: u64 = 60;
    let day: u64 = 1440;
    let week: u64 = 10080;
    let mut out: Vec<char>;
    if minutes != 0 && minutes % week == 0 {
        out = decimal_u64(minutes / week);
        out.push('W');
    } else if minutes != 0 && minutes % day == 0 {
        out = decimal_u64(minutes / day);
        out.push('D');
    } else if minutes != 0 && minutes % hour == 0 {
        out = decimal_u64(minutes / hour);
        out.push('H');
    } else {
        out = decimal_u64(minutes);
        out.push('M');
    }
    string_of(&out)
}

/// Formatting a reminder that fires before the start and parsing the
/// trigger back gives the same reminder.
pub proof fn lemma_trigger_round_trip(minutes: i64)
    requires
        minutes >= 0,
    ensures
        splittable_trigger(trigger_text(minutes)),
        trigger_minutes(trigger_text(minutes)) == Some(minutes),
{
    let m = minutes as nat;
    let t = trigger_text(minutes);
    let (q, u): (nat, int) = if m != 0 && m % 10080 == 0 {
        (m / 10080, 10080)
    } else if m != 0 && m % 1440 == 0 {
        (m / 1440, 1440)
    } else if m != 0 && m % 60 == 0 {
        (m / 60, 60)
    } else {
        (m, 1)
    };
    assert(q * u == m);
    lemma_dec_digits(q);
    assert(t.drop_last() =~= dec(q));
    assert(unit_minutes(t.last()) == Some(u));
}

/// A trigger is a count and a unit: `M` minutes, `H` hours (60 minutes),
/// `D` days (1440 minutes) and `W` weeks (10080 minutes).
pub proof fn lemma_trigger_units(n: nat)
    requires
        n * 10080 <= i64::MAX,
    ensures
        trigger_minutes(dec(n).push('M')) == Some(n as i64),
        trigger_minutes(dec(n).push('H')) == Some((n * 60) as i64),
        trigger_minutes(dec(n).push('D')) == Some((n * 1440) as i64),
        trigger_minutes(dec(n).push('W')) == Some((n * 10080) as i64),
        trigger_minutes(dec(n).push('S')) is None,
{
    lemma_dec_digits(n);
    assert(dec(n).push('M').drop_last() =~= dec(n));
    assert(dec(n).push('H').drop_last() =~= dec(n));
    assert(dec(n).push('D').drop_last() =~= dec(n));
    assert(dec(n).push('W').drop_last() =~= dec(n));
    assert(dec(n).push('S').drop_last() =~= dec(n));
}

/// A reminder is written in the largest of weeks, days, hours and minutes
/// that divides its minutes exactly, as the count of that unit.
pub proof fn lemma_trigger_unit_choice(n: nat)
    requires
        1 <= n,
        n * 10080 <= i64::MAX,
    ensures
        trigger_text((n * 10080) as i64) == dec(n).push('W'),
        n % 7 != 0 ==> trigger_text((n * 1440) as i64) == dec(n).push('D'),
        n % 24 != 0 ==> trigger_text((n * 60) as i64) == dec(n).push('H'),
        n % 60 != 0 ==> trigger_text(n as i64) == dec(n).push('M'),
        trigger_text(0) == dec(0).push('M'),
{
    assert((n * 10080) % 10080 == 0 && (n * 10080) / 10080 == n) by (nonlinear_arith)
        requires
            n >= 1,
    ;
    assert(n % 7 != 0 ==> (n * 1440) % 10080 != 0 && (n * 1440) % 1440 == 0 && (n * 1440)
        / 1440 == n) by (nonlinear_arith)
        requires
            n >= 1,
    ;
    assert(n % 24 != 0 ==> (n * 60) % 10080 != 0 && (n * 60) % 1440 != 0 && (n * 60) % 60 == 0
        && (n * 60) / 60 == n) by (nonlinear_arith)
        requires
            n >= 1,
    ;
    assert(n % 60 != 0 ==> n % 10080 != 0 && n % 1440 != 0 && n % 60 != 0) by (nonlinear_arith)
        requires
            n >= 1,
    ;
}

/// The triggers of the given reminders, in order.
pub fn alarm_triggers(reminders: &Vec<Reminder>) -> (r: Vec<String>)
    ensures
        r@.len() == reminders@.len(),
        forall|i: int|
            0 <= i < r@.len() ==> #[trigger] r@[i]@ == trigger_text(
                reminders@[i].minutes_before_start,
            ),
{
    let mut r: Vec<String> = Vec::new();
    for i in 0..reminders.len()
        invariant
            r@.len() == i,
            forall|j: int|
                0 <= j < i ==> #[trigger] r@[j]@ == trigger_text(
                    reminders@[j].minutes_before_start,
                ),
    {
        r.push(trigger_from_reminder(reminders[i]));
    }
    r
}

// ------------------------------------------------------ alarms of an event
/// The alarm references that an in-place edit keeps: those in lists other
/// than the user's own alarm list (all of them when the user has none).
pub open spec fn other_users_alarms(
    alarm_list_id: Option<Seq<char>>,
    alarms: Seq<IdTupleView>,
) -> Seq<IdTupleView> {
    match alarm_list_id {
        None => alarms,
        Some(l) => alarms.filter(|a: IdTupleView| a.list_id != l),
    }
}

/// The alarms of `event` that do not belong to the user's alarm list.
pub fn retain_other_users_alarms(alarm_list_id: Option<&str>, event: &TutaEvent) -> (r: Vec<
    IdTuple,
>)
    ensures
        ids_view(r@) == other_users_alarms(
            match alarm_list_id {
                Some(l) => Some(l@),
                None => None,
            },
            event@.alarm_infos,
        ),
{
    let ghost src = event@.alarm_infos;
    let mut r: Vec<IdTuple> = Vec::new();
    match alarm_list_id {
        None => {
            for i in 0..event.alarm_infos.len()
                invariant
                    src == event@.alarm_infos,
                    ids_view(r@) =~= src.take(i as int),
            {
                assert(event.alarm_infos@[i as int]@ == src[i as int]);
                assert(src.take(i + 1) =~= src.take(i as int).push(src[i as int]));
                r.push(event.alarm_infos[i].duplicate());
            }
            assert(src.take(src.len() as int) =~= src);
        },
        Some(l) => {
            let lc = chars_of(l);
            let ghost keep = |a: IdTupleView| a.list_id != l@;
            for i in 0..event.alarm_infos.len()
                invariant
                    src == event@.alarm_infos,
                    lc@ == l@,
                    keep == (|a: IdTupleView| a.list_id != l@),
                    ids_view(r@) =~= src.take(i as int).filter(keep),
            {
                let item = &event.alarm_infos[i];
                let lid = chars_of(item.list_id.as_str());
                proof {
                    assert(src.take(i + 1).drop_last() =~= src.take(i as int));
                    reveal_with_fuel(Seq::<_>::filter, 1);
                }
                if !chars_eq(&lid, &lc) {
                    r.push(item.duplicate());
                }
            }
            assert(src.take(src.len() as int) =~= src);
        },
    }
    r
}

// ---------------------------------------------------- reminders of events
/// The text form of an id: `<list-id>/<element-id>`.
pub open spec fn id_text(id: IdTupleView) -> Seq<char> {
    id.list_id + seq!['/'] + id.element_id
}

/// The text form of an id.
pub fn id_to_string(id: &IdTuple) -> (r: Vec<char>)
    ensures
        r@ == id_text(id@),
{
    let mut r = chars_of(id.list_id.as_str());
    r.push('/');
    let e = chars_of(id.element_id.as_str());
    append_chars(&mut r, &e);
    r
}

/// A loaded user alarm: its id, when it has one, and its trigger.
#[derive(Debug, Clone, PartialEq, Eq)]
pub struct UserAlarm {
    pub id: Option<IdTuple>,
    pub trigger: String,
}

/// Whether `id` lies in the alarm list and is referenced by some event.
pub open spec fn is_referenced(events: Seq<TutaEvent>, list: Seq<char>, id: Seq<char>) -> bool {
    exists|e: int, a: int|
        0 <= e < events.len() && 0 <= a < events[e]@.alarm_infos.len() && #[trigger] events[e]@.alarm_infos[a].list_id
            == list && id_text(events[e]@.alarm_infos[a]) == id
}

/// Whether any event refers to an alarm in the user's alarm list; only then
/// are the user's alarms worth loading.
pub open spec fn references_alarm_list(events: Seq<TutaEvent>, list: Seq<char>) -> bool {
    exists|e: int, a: int|
        0 <= e < events.len() && 0 <= a < events[e]@.alarm_infos.len() && #[trigger] events[e]@.alarm_infos[a].list_id
            == list
}

/// Whether some event refers to an alarm in the user's alarm list.
pub fn refers_to_alarm_list(events: &Vec<TutaEvent>, list: &str) -> (r: bool)
    ensures
        r == references_alarm_list(events@, list@),
{
    let lc = chars_of(list);
    for e in 0..events.len()
        invariant
            lc@ == list@,
            forall|x: int, a: int|
                0 <= x < e && 0 <= a < events@[x]@.alarm_infos.len() ==> #[trigger] events@[x]@.alarm_infos[a].list_id
                    != list@,
    {
        let ev = &events[e];
        for a in 0..ev.alarm_infos.len()
            invariant
                lc@ == list@,
                0 <= e < events.len(),
                ev == events@[e as int],
                forall|y: int| 0 <= y < a ==> #[trigger] ev@.alarm_infos[y].list_id != list@,
                forall|x: int, b: int|
                    0 <= x < e && 0 <= b < events@[x]@.alarm_infos.len() ==> #[trigger] events@[x]@.alarm_infos[b].list_id
                        != list@,
        {
            let lid = chars_of(ev.alarm_infos[a].list_id.as_str());
            assert(ev@.alarm_infos[a as int] == ev.alarm_infos@[a as int]@);
            if chars_eq(&lid, &lc) {
                assert(events@[e as int]@.alarm_infos[a as int].list_id == list@);
                assert(0 <= a < events@[e as int]@.alarm_infos.len());
                assert(references_alarm_list(events@, list@));
                return true;
            }
        }
    }
    false
}

/// The trigger of the last loaded alarm whose id reads `id` (a later alarm
/// with the same id replaces an earlier one).
pub open spec fn trigger_of(alarms: Seq<UserAlarm>, id: Seq<char>) -> Option<Seq<char>>
    decreases alarms.len(),
{
    if alarms.len() == 0 {
        None
    } else {
        match alarms.last().id {
            Some(a) if id_text(a@) == id => Some(alarms.last().trigger@),
            _ => trigger_of(alarms.drop_last(), id),
        }
    }
}

/// The reminders that the references `refs` of one event denote, in order:
/// those in the user's alarm list whose loaded trigger parses.
pub open spec fn raw_reminders(
    refs: Seq<IdTupleView>,
    list: Seq<char>,
    alarms: Seq<UserAlarm>,
) -> Seq<Reminder>
    decreases refs.len(),
{
    if refs.len() == 0 {
        seq![]
    } else {
        let rest = raw_reminders(refs.drop_last(), list, alarms);
        let a = refs.last();
        if a.list_id == list {
            match trigger_of(alarms, id_text(a)) {
                Some(t) => match trigger_minutes(t) {
                    Some(m) => rest.push(Reminder { minutes_before_start: m }),
                    None => rest,
                },
                None => rest,
            }
        } else {
            rest
        }
    }
}

/// The sort keys that put reminders with more minutes first.
pub open spec fn descending_keys(rs: Seq<Reminder>) -> Seq<i128> {
    Seq::new(rs.len(), |i: int| (-(rs[i].minutes_before_start as int)) as i128)
}

/// `sorted` is `raw` stably sorted so that reminders that fire earlier
/// (more minutes before the start) come first.
pub open spec fn is_sorted_latest_last(raw: Seq<Reminder>, sorted: Seq<Reminder>) -> bool {
    exists|perm: Seq<usize>|
        is_stable_order(descending_keys(raw), perm) && sorted == Seq::new(
            perm.len(),
            |i: int| raw[perm[i] as int],
        )
}

/// Sorts reminders stably, those with more minutes before the start first.
pub fn sort_reminders(raw: &Vec<Reminder>) -> (r: Vec<Reminder>)
    ensures
        is_sorted_latest_last(raw@, r@),
{
    let mut keys: Vec<i128> = Vec::new();
    for i in 0..raw.len()
        invariant
            keys@ =~= descending_keys(raw@.take(i as int)),
    {
        keys.push(-(raw[i].minutes_before_start as i128));
    }
    assert(raw@.take(raw.len() as int) =~= raw@);
    let perm = stable_order(&keys);
    let mut r: Vec<Reminder> = Vec::new();
    for i in 0..perm.len()
        invariant
            is_stable_order(descending_keys(raw@), perm@),
            r@ =~= Seq::new(i as nat, |k: int| raw@[perm@[k] as int]),
    {
        assert(perm@[i as int] < raw@.len());
        r.push(raw[perm[i]]);
    }
    assert(is_stable_order(descending_keys(raw@), perm@));
    r
}

/// The ids, reminders not yet sorted, of the events that have an id.
pub open spec fn raw_entries(
    events: Seq<TutaEvent>,
    list: Seq<char>,
    alarms: Seq<UserAlarm>,
) -> Seq<(Seq<char>, Seq<Reminder>)>
    decreases events.len(),
{
    if events.len() == 0 {
        seq![]
    } else {
        let rest = raw_entries(events.drop_last(), list, alarms);
        match events.last()@.id {
            Some(id) => rest.push(
                (id_text(id), raw_reminders(events.last()@.alarm_infos, list, alarms)),
            ),
            None => rest,
        }
    }
}

/// The trigger of the last alarm whose id reads `id`.
pub(crate) fn find_trigger(alarms: &Vec<UserAlarm>, id: &Vec<char>) -> (r: Option<usize>)
    ensures
        match trigger_of(alarms@, id@) {
            Some(t) => r matches Some(k) && k < alarms@.len() && alarms@[k as int].trigger@ == t,
            None => r is None,
        },
{
    let mut k: usize = alarms.len();
    assert(alarms@.take(k as int) =~= alarms@);
    while k > 0
        invariant
            k <= alarms.len(),
            trigger_of(alarms@, id@) == trigger_of(alarms@.take(k as int), id@),
        decreases k,
    {
        let ghost pre = alarms@.take(k as int);
        assert(pre.drop_last() =~= alarms@.take(k - 1));
        assert(pre.last() == alarms@[k - 1]);
        match &alarms[k - 1].id {
            Some(a) => {
                let t = id_to_string(a);
                if chars_eq(&t, id) {
                    return Some(k - 1);
                }
            },
            None => {},
        }
        k = k - 1;
    }
    None
}

/// Whether the trigger of every alarm that an event refers to in the user's
/// alarm list can be split before its last character (the triggers that
/// are parsed).
pub open spec fn referenced_triggers_splittable(
    events: Seq<TutaEvent>,
    list: Seq<char>,
    alarms: Seq<UserAlarm>,
) -> bool {
    forall|e: int, a: int|
        0 <= e < events.len() && 0 <= a < events[e]@.alarm_infos.len()
            && #[trigger] events[e]@.alarm_infos[a].list_id == list ==> (trigger_of(
            alarms,
            id_text(events[e]@.alarm_infos[a]),
        ) matches Some(t) ==> splittable_trigger(t))
}

/// The reminders of every loaded event that has an id, keyed by the text of
/// that id, each list sorted with the earliest-firing reminder first.
/// Nothing comes back when the user has no alarm list or no event refers to
/// it; a trigger that does not parse is left out.
pub fn reminders_for_events(
    alarm_list_id: Option<&str>,
    events: &Vec<TutaEvent>,
    alarms: &Vec<UserAlarm>,
) -> (r: Vec<(String, Vec<Reminder>)>)
    requires
        alarm_list_id matches Some(l) ==> referenced_triggers_splittable(events@, l@, alarms@),
    ensures
        match alarm_list_id {
            None => r@.len() == 0,
            Some(l) => if !references_alarm_list(events@, l@) {
                r@.len() == 0
            } else {
                let raw = raw_entries(events@, l@, alarms@);
                &&& r@.len() == raw.len()
                &&& forall|i: int|
                    0 <= i < raw.len() ==> (#[trigger] r@[i]).0@ == raw[i].0
                        && is_sorted_latest_last(raw[i].1, r@[i].1@)
            },
        },
{
    let mut out: Vec<(String, Vec<Reminder>)> = Vec::new();
    let l = match alarm_list_id {
        None => {
            return out;
        },
        Some(l) => l,
    };
    if !refers_to_alarm_list(events, l) {
        return out;
    }
    let lc = chars_of(l);
    for e in 0..events.len()
        invariant
            lc@ == l@,
            referenced_triggers_splittable(events@, l@, alarms@),
            out@.len() == raw_entries(events@.take(e as int), l@, alarms@).len(),
            forall|i: int|
                0 <= i < out@.len() ==> (#[trigger] out@[i]).0@ == raw_entries(
                    events@.take(e as int),
                    l@,
                    alarms@,
                )[i].0 && is_sorted_latest_last(
                    raw_entries(events@.take(e as int), l@, alarms@)[i].1,
                    out@[i].1@,
                ),
    {
        let ev = &events[e];
        assert(events@.take(e + 1).drop_last() =~= events@.take(e as int));
        assert(events@.take(e + 1).last() == ev);
        match &ev.id {
            None => {},
            Some(id) => {
                let mut raw: Vec<Reminder> = Vec::new();
                let ghost refs = ev@.alarm_infos;
                for a in 0..ev.alarm_infos.len()
                    invariant
                        lc@ == l@,
                        refs == ev@.alarm_infos,
                        0 <= e < events.len(),
                        ev == events@[e as int],
                        referenced_triggers_splittable(events@, l@, alarms@),
                        raw@ == raw_reminders(refs.take(a as int), l@, alarms@),
                {
                    let item = &ev.alarm_infos[a];
                    assert(refs.take(a + 1).drop_last() =~= refs.take(a as int));
                    assert(refs.take(a + 1).last() == item@);
                    let lid = chars_of(item.list_id.as_str());
                    if chars_eq(&lid, &lc) {
                        let t = id_to_string(item);
                        match find_trigger(alarms, &t) {
                            Some(k) => {
                                assert(item@ == events@[e as int]@.alarm_infos[a as int]);
                                assert(events@[e as int]@.alarm_infos[a as int].list_id == l@);
                                match reminder_from_trigger(alarms[k].trigger.as_str()) {
                                    Some(rem) => raw.push(rem),
                                    None => {},
                                }
                            },
                            None => {},
                        }
                    }
                }
                assert(refs.take(refs.len() as int) =~= refs);
                let sorted = sort_reminders(&raw);
                let key = string_of(&id_to_string(id));
                out.push((key, sorted));
            },
        }
    }
    assert(events@.take(events.len() as int) =~= events@);
    out
}

// -------------------------------------------------- writing reminders
/// The operation code of an alarm notification that creates the alarm.
pub const OPERATION_CREATE: i64 = 0;

/// Why reminders cannot be written to Tuta.
#[derive(Debug, Clone, Copy, PartialEq, Eq)]
pub enum AlarmError {
    NoAlarmList,
    EventWithoutId,
    UserWithoutId,
    KeyVersionTooLarge,
    PushDeviceWithoutOwnerGroup,
    PushDeviceWithoutKeyVersion,
    PushDeviceNegativeKeyVersion,
    PushDeviceWithoutSessionKey,
}

pub open spec fn alarm_message(e: AlarmError) -> Seq<char> {
    match e {
        AlarmError::NoAlarmList => "Tuta account has no reminder list"@,
        AlarmError::EventWithoutId => "Cannot create reminders for a Tuta event without an id"@,
        AlarmError::UserWithoutId => "Cannot create reminders for a Tuta user without an id"@,
        AlarmError::KeyVersionTooLarge => "Tuta user key version exceeds i64"@,
        AlarmError::PushDeviceWithoutOwnerGroup => "Tuta push device has no owner group"@,
        AlarmError::PushDeviceWithoutKeyVersion => "Tuta push device has no owner key version"@,
        AlarmError::PushDeviceNegativeKeyVersion => "Tuta push device has a negative owner key version"@,
        AlarmError::PushDeviceWithoutSessionKey => "Tuta push device has no encrypted session key"@,
    }
}

impl AlarmError {
    /// The message that explains the error.
    pub fn message(&self) -> (r: &'static str)
        ensures
            r@ == alarm_message(*self),
    {
        match self {
            AlarmError::NoAlarmList => "Tuta account has no reminder list",
            AlarmError::EventWithoutId => "Cannot create reminders for a Tuta event without an id",
            AlarmError::UserWithoutId => "Cannot create reminders for a Tuta user without an id",
            AlarmError::KeyVersionTooLarge => "Tuta user key version exceeds i64",
            AlarmError::PushDeviceWithoutOwnerGroup => "Tuta push device has no owner group",
            AlarmError::PushDeviceWithoutKeyVersion => "Tuta push device has no owner key version",
            AlarmError::PushDeviceNegativeKeyVersion => "Tuta push device has a negative owner key version",
            AlarmError::PushDeviceWithoutSessionKey => "Tuta push device has no encrypted session key",
        }
    }
}

/// The event whose reminders are written, checked in order: nothing is
/// written without reminders; the user needs an alarm list, the event an
/// id and the user an id.
pub fn alarm_target(
    reminders: &Vec<Reminder>,
    alarm_list_id: Option<&str>,
    event: &TutaEvent,
    user_id: Option<&str>,
) -> (r: Result<Option<IdTuple>, AlarmError>)
    ensures
        reminders@.len() == 0 ==> r == Ok::<Option<IdTuple>, AlarmError>(None),
        reminders@.len() > 0 ==> if alarm_list_id is None {
            r == Err::<Option<IdTuple>, AlarmError>(AlarmError::NoAlarmList)
        } else if event@.id is None {
            r == Err::<Option<IdTuple>, AlarmError>(AlarmError::EventWithoutId)
        } else if user_id is None {
            r == Err::<Option<IdTuple>, AlarmError>(AlarmError::UserWithoutId)
        } else {
            r matches Ok(Some(id)) && Some(id@) == event@.id
        },
{
    if reminders.len() == 0 {
        return Ok(None);
    }
    if alarm_list_id.is_none() {
        return Err(AlarmError::NoAlarmList);
    }
    let id = match &event.id {
        Some(id) => id.duplicate(),
        None => {
            return Err(AlarmError::EventWithoutId);
        },
    };
    if user_id.is_none() {
        return Err(AlarmError::UserWithoutId);
    }
    Ok(Some(id))
}

/// The version of the user's key as the alarm data stores it.
pub fn owner_key_version(version: u64) -> (r: Result<i64, AlarmError>)
    ensures
        version <= i64::MAX ==> r == Ok::<i64, AlarmError>(version as i64),
        version > i64::MAX ==> r == Err::<i64, AlarmError>(AlarmError::KeyVersionTooLarge),
{
    if version <= 9223372036854775807u64 {
        Ok(version as i64)
    } else {
        Err(AlarmError::KeyVersionTooLarge)
    }
}

/// Milliseconds since the epoch as an unsigned number: zero before it.
pub open spec fn millis_or_zero_spec(ms: i64) -> u64 {
    if ms < 0 {
        0
    } else {
        ms as u64
    }
}

/// Milliseconds since the epoch as an unsigned number: zero before it.
pub fn millis_or_zero(ms: i64) -> (r: u64)
    ensures
        r == millis_or_zero_spec(ms),
{
    if ms < 0 {
        0
    } else {
        ms as u64
    }
}

/// The time now, in milliseconds since the epoch, or zero before it.
pub fn current_time_millis() -> (r: u64)
    ensures
        exists|now: i64| in_range(now as int) && r == millis_or_zero_spec(now),
        r <= MAX_MS,
{
    let now = now_millis();
    millis_or_zero(now)
}

/// A reminder as it is written: its trigger and a fresh alarm identifier.
#[derive(Debug, Clone, PartialEq, Eq)]
pub struct PlannedAlarm {
    pub trigger: String,
    pub alarm_identifier: String,
}

/// Plans the writing of one reminder: its trigger in the largest exact
/// unit, and an identifier made as a new event's element id is made, from
/// the time now.
pub fn plan_alarm(reminder: Reminder) -> (r: PlannedAlarm)
    ensures
        r.trigger@ == trigger_text(reminder.minutes_before_start),
        exists|now: u64, shift: i64|
            #![trigger element_id_text(now, shift)]
            shift_range(now).0 <= shift < shift_range(now).1 && r.alarm_identifier@
                == element_id_text(now, shift),
{
    let trigger = trigger_from_reminder(reminder);
    let alarm_identifier = random_event_element_id(current_time_millis());
    PlannedAlarm { trigger, alarm_identifier }
}

/// A copy of the event's repeat rule as the alarm notification carries it.
pub fn repeat_rule_for_alarm(rule: &RepeatRule) -> (r: RepeatRule)
    ensures
        r@ == rule@,
{
    let mut excluded_dates: Vec<u64> = Vec::new();
    for i in 0..rule.excluded_dates.len()
        invariant
            excluded_dates@ == rule.excluded_dates@.take(i as int),
    {
        excluded_dates.push(rule.excluded_dates[i]);
        assert(excluded_dates@ =~= rule.excluded_dates@.take(i + 1));
    }
    let mut advanced_rules: Vec<AdvancedRule> = Vec::new();
    for i in 0..rule.advanced_rules.len()
        invariant
            advanced_rules@.len() == i,
            forall|k: int| 0 <= k < i ==> #[trigger] advanced_rules@[k]@ == rule.advanced_rules@[k]@,
    {
        let a = &rule.advanced_rules[i];
        advanced_rules.push(AdvancedRule { rule_type: a.rule_type, interval: a.interval.clone() });
    }
    assert(advanced_view(advanced_rules@) =~= advanced_view(rule.advanced_rules@));
    let copy = RepeatRule {
        frequency: rule.frequency,
        end_type: rule.end_type,
        end_value: rule.end_value,
        interval: rule.interval,
        time_zone: rule.time_zone.clone(),
        excluded_dates,
        advanced_rules,
    };
    assert(copy@.advanced_rules =~= rule@.advanced_rules);
    assert(copy@.excluded_dates =~= rule@.excluded_dates);
    copy
}

/// A push device of the user, as loaded.
#[derive(Debug, Clone, PartialEq, Eq)]
pub struct PushIdentifierData {
    pub id: Option<IdTuple>,
    pub owner_group: Option<String>,
    pub owner_key_version: Option<i64>,
    pub owner_enc_session_key: Option<Vec<u8>>,
}

/// What decrypting a push device's key needs: the device's id, its owner
/// group, the version of that group's key and the encrypted key.
#[derive(Debug, Clone, PartialEq, Eq)]
pub struct PushKeyRequest {
    pub id: IdTuple,
    pub owner_group: String,
    pub owner_key_version: u64,
    pub owner_enc_session_key: Vec<u8>,
}

/// What a push device gives the notification keys: nothing when it has no
/// id; else the request for its key, once it has an owner group, a key
/// version that is not negative, and an encrypted key.
pub fn push_key_request(device: PushIdentifierData) -> (r: Result<Option<PushKeyRequest>, AlarmError>)
    ensures
        device.id is None ==> r == Ok::<Option<PushKeyRequest>, AlarmError>(None),
        device.id is Some ==> if device.owner_group is None {
            r == Err::<Option<PushKeyRequest>, AlarmError>(AlarmError::PushDeviceWithoutOwnerGroup)
        } else if device.owner_key_version is None {
            r == Err::<Option<PushKeyRequest>, AlarmError>(AlarmError::PushDeviceWithoutKeyVersion)
        } else if device.owner_key_version->0 < 0 {
            r == Err::<Option<PushKeyRequest>, AlarmError>(AlarmError::PushDeviceNegativeKeyVersion)
        } else if device.owner_enc_session_key is None {
            r == Err::<Option<PushKeyRequest>, AlarmError>(AlarmError::PushDeviceWithoutSessionKey)
        } else {
            r matches Ok(Some(req)) && Some(req.id) == device.id && Some(req.owner_group)
                == device.owner_group && req.owner_key_version == device.owner_key_version->0
                && Some(req.owner_enc_session_key) == device.owner_enc_session_key
        },
{
    let PushIdentifierData { id, owner_group, owner_key_version, owner_enc_session_key } = device;
    let id = match id {
        Some(id) => id,
        None => {
            return Ok(None);
        },
    };
    let owner_group = match owner_group {
        Some(g) => g,
        None => {
            return Err(AlarmError::PushDeviceWithoutOwnerGroup);
        },
    };
    let version = match owner_key_version {
        Some(v) => v,
        None => {
            return Err(AlarmError::PushDeviceWithoutKeyVersion);
        },
    };
    if version < 0 {
        return Err(AlarmError::PushDeviceNegativeKeyVersion);
    }
    let key = match owner_enc_session_key {
        Some(k) => k,
        None => {
            return Err(AlarmError::PushDeviceWithoutSessionKey);
        },
    };
    Ok(
        Some(
            PushKeyRequest {
                id,
                owner_group,
                owner_key_version: version as u64,
                owner_enc_session_key: key,
            },
        ),
    )
}

} // verus!
