//! The decisions of the write path: which Tuta list an event goes to, when
//! an edit must delete and recreate the entity, the element id recipe, the
//! checks before a write, the item reference, and the exclusion that a
//! recurrence override adds to its master.

use rand::Rng;
use sha2::Digest;
use vstd::prelude::*;

use crate::alarms::{id_text, id_to_string};
use crate::content::{ITEM_UID_PROPERTY, first_item_ref, item_ref, set_item_ref, without_item_refs};
use crate::entity::{
    CalendarGroupRoot, IdTuple, IdTupleView, RepeatRuleView, TutaEvent, TutaEventView,
};
use crate::event::{Event, EventView, XPropertyView};
use crate::entity::{ServerFields, server_empty};
use crate::mapping::{
    MappingError, event_fits, from_caldir_event, tuta_error_possible, tuta_event_matches,
    is_sorted_ascending_of, sort_ascending, sequence_i32,
};
use crate::order::is_stable_order;
use crate::text::{
    chars_eq, chars_of, dec, decimal_u128, find_char, find_first, slice_chars, string_of,
};

verus! {

/// Events that recur or last longer than this go to a calendar's list of
/// long events (15 days).
pub const LONG_EVENT_DURATION_MS: u64 = 1_296_000_000;

/// How far, before or after its start, a new event's element id may lie
/// (15 days).
pub const DAYS_SHIFTED_MS: i64 = 1_296_000_000;

/// Why a write was refused.
#[derive(Debug, Clone, Copy, PartialEq, Eq)]
pub enum WriteError {
    /// The event could not be mapped.
    Mapping(MappingError),
    /// The event does not end after it starts.
    EndNotAfterStart,
    /// The event starts at the epoch itself.
    StartAtEpoch,
    /// The event has no `X-TUTA-ITEM`.
    MissingItemRef,
    /// The `X-TUTA-ITEM` is not `<list-id>/<element-id>`.
    InvalidItemRef,
    /// The event is an invitation with attendees.
    InvitationWithAttendees,
    /// The written entity has no id.
    MissingId,
}

/// How long an event lasts, zero when it ends before it starts.
pub open spec fn duration(e: TutaEventView) -> int {
    if e.end_time >= e.start_time {
        e.end_time - e.start_time
    } else {
        0
    }
}

/// Whether an event belongs in the list of long events: it recurs or lasts
/// longer than 15 days.
pub open spec fn long_event(e: TutaEventView) -> bool {
    e.repeat_rule is Some || duration(e) > LONG_EVENT_DURATION_MS
}

/// Whether an event belongs in the list of long events.
pub fn is_long_event(event: &TutaEvent) -> (r: bool)
    ensures
        r == long_event(event@),
{
    let length = if event.end_time >= event.start_time {
        event.end_time - event.start_time
    } else {
        0
    };
    event.repeat_rule.is_some() || length > LONG_EVENT_DURATION_MS
}

/// Whether an edit changes what the entity's id depends on: its calendar,
/// its start, or its list.
pub open spec fn recreate_needed(
    existing: TutaEventView,
    updated: TutaEventView,
    target: Seq<char>,
) -> bool {
    existing.owner_group != Some(target) || existing.start_time != updated.start_time
        || long_event(existing) != long_event(updated)
}

/// Whether an edit must delete the entity and create it anew.
pub fn requires_recreate(existing: &TutaEvent, updated: &TutaEvent, target_calendar: &str) -> (r:
    bool)
    ensures
        r == recreate_needed(existing@, updated@, target_calendar@),
{
    let same_calendar = match &existing.owner_group {
        Some(g) => {
            let a = chars_of(g.as_str());
            let b = chars_of(target_calendar);
            chars_eq(&a, &b)
        },
        None => false,
    };
    !same_calendar || existing.start_time != updated.start_time || is_long_event(existing)
        != is_long_event(updated)
}

/// The element id of an event: the decimal of its start moved by the shift,
/// never below zero.
pub open spec fn element_id_text(start_ms: u64, shift_ms: i64) -> Seq<char> {
    let shifted = start_ms + shift_ms;
    dec(
        if shifted < 0 {
            0
        } else {
            shifted as nat
        },
    )
}

/// The custom element id for an event that starts at `start_ms`, moved by
/// `shift_ms`.
pub fn element_id_for(start_ms: u64, shift_ms: i64) -> (r: String)
    ensures
        r@ == element_id_text(start_ms, shift_ms),
{
    let shifted: i128 = start_ms as i128 + shift_ms as i128;
    let v: u128 = if shifted < 0 {
        0
    } else {
        shifted as u128
    };
    let digits = decimal_u128(v);
    string_of(&digits)
}


/// The range `[low, high)` from which a new event's element id shift is
/// drawn: up to 15 days either way, but not back before the epoch.
pub open spec fn shift_range(start_ms: u64) -> (int, int) {
    let back = if start_ms <= i64::MAX {
        if (start_ms as int) < DAYS_SHIFTED_MS {
            start_ms as int
        } else {
            DAYS_SHIFTED_MS as int
        }
    } else {
        DAYS_SHIFTED_MS as int
    };
    (-back, DAYS_SHIFTED_MS as int)
}

/// The range from which the element id shift of an event starting at
/// `start_ms` is drawn.
pub fn element_shift_range(start_ms: u64) -> (r: (i64, i64))
    ensures
        r.0 == shift_range(start_ms).0,
        r.1 == shift_range(start_ms).1,
        r.0 < r.1,
{
    let start: i64 = if start_ms <= 9223372036854775807u64 {
        start_ms as i64
    } else {
        i64::MAX
    };
    let back = if start < DAYS_SHIFTED_MS {
        start
    } else {
        DAYS_SHIFTED_MS
    };
    (-back, DAYS_SHIFTED_MS)
}

/// A number drawn at random from `[low, high)`
/// (`rand::rng().random_range(low..high)`, which panics on an empty range).
#[verifier::external_body]
fn random_in(low: i64, high: i64) -> (r: i64)
    requires
        low < high,
    ensures
        low <= r < high,
{
    rand::rng().random_range(low..high)
}

/// The element id of a new event that starts at `start_ms`: its start
/// moved by a shift drawn at random from the range that
/// [`element_shift_range`] gives.
pub fn random_event_element_id(start_ms: u64) -> (r: String)
    ensures
        exists|shift: i64|
            #![trigger element_id_text(start_ms, shift)]
            shift_range(start_ms).0 <= shift < shift_range(start_ms).1 && r@ == element_id_text(
                start_ms,
                shift,
            ),
{
    let (low, high) = element_shift_range(start_ms);
    let shift = random_in(low, high);
    element_id_for(start_ms, shift)
}

/// The SHA-256 digest of the data.
pub uninterp spec fn spec_sha256(data: Seq<u8>) -> Seq<u8>;

/// SHA-256 (`sha2::Sha256::digest`): a digest of 32 bytes that depends on
/// the data alone.
#[verifier::external_body]
fn sha256(data: &[u8]) -> (r: Vec<u8>)
    ensures
        r@ == spec_sha256(data@),
        r@.len() == 32,
{
    sha2::Sha256::digest(data).to_vec()
}

/// The uid as Tuta indexes it: the SHA-256 digest of its UTF-8 bytes.
pub fn hashed_uid(uid: &str) -> (r: Vec<u8>)
    ensures
        r@ == spec_sha256(vstd::utf8::encode_utf8(uid@)),
        r@.len() == 32,
{
    sha256(uid.as_bytes())
}

/// Checks a mapped event before it is written: it must end after it starts
/// and must not start at the epoch.
pub open spec fn validation(e: TutaEventView) -> Result<(), WriteError> {
    if e.end_time <= e.start_time {
        Err(WriteError::EndNotAfterStart)
    } else if e.start_time == 0 {
        Err(WriteError::StartAtEpoch)
    } else {
        Ok(())
    }
}

/// Checks a mapped event before it is written.
pub fn validate(event: &TutaEvent) -> (r: Result<(), WriteError>)
    ensures
        r == validation(event@),
{
    if event.end_time <= event.start_time {
        return Err(WriteError::EndNotAfterStart);
    }
    if event.start_time == 0 {
        return Err(WriteError::StartAtEpoch);
    }
    Ok(())
}

/// The id that an `X-TUTA-ITEM` value names: the text before its first `/`
/// and the text after it, neither empty.
pub open spec fn item_ref_id(v: Seq<char>) -> Option<IdTupleView> {
    match find_char(v, '/') {
        None => None,
        Some(i) => if i == 0 || i == v.len() - 1 {
            None
        } else {
            Some(IdTupleView { list_id: v.take(i), element_id: v.skip(i + 1) })
        },
    }
}

/// Reads an `X-TUTA-ITEM` value.
pub fn parse_raw_item_ref(value: &str) -> (r: Result<IdTuple, WriteError>)
    ensures
        match item_ref_id(value@) {
            Some(id) => r matches Ok(t) && t@ == id,
            None => r == Err::<IdTuple, WriteError>(WriteError::InvalidItemRef),
        },
{
    let v = chars_of(value);
    match find_first(&v, '/') {
        None => Err(WriteError::InvalidItemRef),
        Some(i) => {
            assert(find_char(value@, '/') == Some(i as int));
            if i == 0 || i == v.len() - 1 {
                assert(item_ref_id(value@) is None);
                return Err(WriteError::InvalidItemRef);
            }
            let list = slice_chars(&v, 0, i);
            let element = slice_chars(&v, i + 1, v.len());
            assert(list@ =~= v@.take(i as int));
            assert(element@ =~= v@.skip(i + 1));
            Ok(IdTuple::new(string_of(&list), string_of(&element)))
        },
    }
}

/// The index of the first property with exactly this name.
pub open spec fn first_named(props: Seq<XPropertyView>, name: Seq<char>) -> Option<int>
    decreases props.len(),
{
    if props.len() == 0 {
        None
    } else {
        match first_named(props.drop_last(), name) {
            Some(i) => Some(i),
            None => if props.last().name == name {
                Some(props.len() - 1)
            } else {
                None
            },
        }
    }
}

/// The id that an event's `X-TUTA-ITEM` property (with exactly that name)
/// names.
pub open spec fn event_item_id(e: EventView) -> Result<IdTupleView, WriteError> {
    match first_named(e.x_properties, ITEM_UID_PROPERTY@) {
        None => Err(WriteError::MissingItemRef),
        Some(i) => match item_ref_id(e.x_properties[i].value) {
            None => Err(WriteError::InvalidItemRef),
            Some(id) => Ok(id),
        },
    }
}

/// The Tuta id of an event, from its `X-TUTA-ITEM` property.
pub fn parse_item_ref(event: &Event) -> (r: Result<IdTuple, WriteError>)
    ensures
        match event_item_id(event@) {
            Ok(id) => r matches Ok(t) && t@ == id,
            Err(e) => r == Err::<IdTuple, WriteError>(e),
        },
{
    let name = chars_of(ITEM_UID_PROPERTY);
    let ghost props = event@.x_properties;
    for i in 0..event.x_properties.len()
        invariant
            name@ == ITEM_UID_PROPERTY@,
            props == event@.x_properties,
            first_named(props.take(i as int), ITEM_UID_PROPERTY@) is None,
    {
        assert(props.take(i + 1).drop_last() =~= props.take(i as int));
        assert(props[i as int] == event.x_properties@[i as int]@);
        let pname = chars_of(event.x_properties[i].name.as_str());
        if chars_eq(&pname, &name) {
            assert(first_named(props.take(i + 1), ITEM_UID_PROPERTY@) == Some(i as int));
            proof {
                lemma_first_named_prefix(props, ITEM_UID_PROPERTY@, (i + 1) as int);
            }
            return parse_raw_item_ref(event.x_properties[i].value.as_str());
        }
    }
    assert(props.take(props.len() as int) =~= props);
    Err(WriteError::MissingItemRef)
}

/// A match found in a prefix is the first match of the whole list.
pub proof fn lemma_first_named_prefix(props: Seq<XPropertyView>, name: Seq<char>, k: int)
    requires
        0 <= k <= props.len(),
        first_named(props.take(k), name) is Some,
    ensures
        first_named(props, name) == first_named(props.take(k), name),
    decreases props.len() - k,
{
    if k < props.len() {
        assert(props.take(k + 1).drop_last() =~= props.take(k));
        lemma_first_named_prefix(props, name, k + 1);
    } else {
        assert(props.take(k) =~= props);
    }
}


/// Whether the entity is the recurring master of the series with this uid.
pub open spec fn is_master_of(e: TutaEventView, uid: Seq<char>) -> bool {
    e.uid == Some(uid) && e.repeat_rule is Some && e.recurrence_id is None
}

/// The index of the first master of the series.
pub open spec fn first_master(ms: Seq<TutaEvent>, uid: Seq<char>) -> Option<int>
    decreases ms.len(),
{
    if ms.len() == 0 {
        None
    } else {
        match first_master(ms.drop_last(), uid) {
            Some(i) => Some(i),
            None => if is_master_of(ms.last()@, uid) {
                Some(ms.len() - 1)
            } else {
                None
            },
        }
    }
}

/// One more, but no more than `i64::MAX`.
pub open spec fn sat_inc(s: i64) -> i64 {
    if s == i64::MAX {
        s
    } else {
        (s + 1) as i64
    }
}

fn saturating_inc(s: i64) -> (r: i64)
    ensures
        r == sat_inc(s),
{
    if s == i64::MAX {
        s
    } else {
        s + 1
    }
}

proof fn lemma_first_master_prefix(ms: Seq<TutaEvent>, uid: Seq<char>, k: int)
    requires
        0 <= k <= ms.len(),
        first_master(ms.take(k), uid) is Some,
    ensures
        first_master(ms, uid) == first_master(ms.take(k), uid),
    decreases ms.len() - k,
{
    if k < ms.len() {
        assert(ms.take(k + 1).drop_last() =~= ms.take(k));
        lemma_first_master_prefix(ms, uid, k + 1);
    } else {
        assert(ms.take(k) =~= ms);
    }
}

/// The index of the first master of the series.
fn find_master(masters: &Vec<TutaEvent>, uid: &str) -> (r: Option<usize>)
    ensures
        match first_master(masters@, uid@) {
            Some(i) => r matches Some(j) && j as int == i && 0 <= i < masters@.len() && is_master_of(
                masters@[i]@,
                uid@,
            ),
            None => r is None,
        },
{
    let uc = chars_of(uid);
    for i in 0..masters.len()
        invariant
            uc@ == uid@,
            first_master(masters@.take(i as int), uid@) is None,
    {
        assert(masters@.take(i + 1).drop_last() =~= masters@.take(i as int));
        assert(masters@.take(i + 1).last() == masters@[i as int]);
        let m = &masters[i];
        let uid_matches = match &m.uid {
            Some(u) => {
                let c = chars_of(u.as_str());
                chars_eq(&c, &uc)
            },
            None => false,
        };
        if uid_matches && m.repeat_rule.is_some() && m.recurrence_id.is_none() {
            assert(is_master_of(masters@[i as int]@, uid@));
            proof {
                lemma_first_master_prefix(masters@, uid@, (i + 1) as int);
            }
            return Some(i);
        }
    }
    assert(masters@.take(masters.len() as int) =~= masters@);
    None
}

/// The master of the series, once an altered occurrence starting at
/// `recurrence_id` is excluded from it: the date is added to its excluded
/// dates, which stay in ascending order, and its sequence grows by one.
/// Nothing when the series has no master or already excludes the date.
#[verifier::loop_isolation(false)]
pub fn exclude_override(masters: Vec<TutaEvent>, uid: &str, recurrence_id: u64) -> (r: Option<
    TutaEvent,
>)
    ensures
        match first_master(masters@, uid@) {
            None => r is None,
            Some(i) => {
                let m = masters@[i]@;
                let rule = m.repeat_rule->0;
                if rule.excluded_dates.contains(recurrence_id) {
                    r is None
                } else {
                    r matches Some(u) && u.server == masters@[i].server && u@ == (
                    TutaEventView {
                        sequence: sat_inc(m.sequence),
                        repeat_rule: Some(
                            RepeatRuleView {
                                excluded_dates: u@.repeat_rule->0.excluded_dates,
                                ..rule
                            },
                        ),
                        ..m
                    }) && is_sorted_ascending_of(
                        rule.excluded_dates.push(recurrence_id),
                        u@.repeat_rule->0.excluded_dates,
                    ) && u@.repeat_rule->0.excluded_dates.contains(recurrence_id)
                }
            },
        },
{
    let found = find_master(&masters, uid);
    let i = match found {
        None => {
            return None;
        },
        Some(i) => i,
    };
    assert(first_master(masters@, uid@) == Some(i as int));
    assert(is_master_of(masters@[i as int]@, uid@));
    let ghost before = masters@[i as int];
    let mut masters = masters;
    let mut master = masters.remove(i);
    assert(master == before);
    assert(is_master_of(master@, uid@));
    assert(master@.repeat_rule is Some);
    assert(master.repeat_rule is Some);
    let ghost orig_rule = master.repeat_rule->0;
    let mut rule = master.repeat_rule.take().unwrap();
    let ghost dates = rule@.excluded_dates;
    for k in 0..rule.excluded_dates.len()
        invariant
            dates == rule@.excluded_dates,
            forall|j: int| 0 <= j < k ==> dates[j] != recurrence_id,
    {
        if rule.excluded_dates[k] == recurrence_id {
            assert(dates[k as int] == recurrence_id);
            assert(dates.contains(recurrence_id));
            assert(orig_rule@.excluded_dates == dates);
            return None;
        }
    }
    assert(!dates.contains(recurrence_id));
    let mut extended = rule.excluded_dates.clone();
    extended.push(recurrence_id);
    assert(extended@ =~= dates.push(recurrence_id));
    let sorted = sort_ascending(&extended);
    proof {
        let perm = choose|perm: Seq<usize>|
            is_stable_order(crate::mapping::ascending_keys(extended@), perm) && sorted@ == Seq::new(
                perm.len(),
                |j: int| extended@[perm[j] as int],
            );
        let n = extended@.len() - 1;
        assert(extended@[n] == recurrence_id);
        assert(perm.contains(n as usize));
        let j = choose|j: int| 0 <= j < perm.len() && perm[j] == n as usize;
        assert(sorted@[j] == recurrence_id);
    }
    rule.excluded_dates = sorted;
    master.repeat_rule = Some(rule);
    master.sequence = saturating_inc(master.sequence);
    Some(master)
}


/// The id, owner and uid hash that a new entity is created with: its list
/// is the calendar's list of long or of short events, by its kind.
pub open spec fn prepared_for_create(
    e: TutaEventView,
    calendar_id: Seq<char>,
    short_list: Seq<char>,
    long_list: Seq<char>,
    element_id: Seq<char>,
) -> TutaEventView {
    TutaEventView {
        id: Some(
            IdTupleView {
                list_id: if long_event(e) {
                    long_list
                } else {
                    short_list
                },
                element_id,
            },
        ),
        owner_group: Some(calendar_id),
        hashed_uid: match e.uid {
            Some(u) => Some(spec_sha256(vstd::utf8::encode_utf8(u))),
            None => None,
        },
        ..e
    }
}

/// Gives a new entity its id in the right list, its owner and its uid hash,
/// and clears the permissions and key derivation nonce that the server
/// assigns.
pub fn prepare_for_create(
    event: TutaEvent,
    calendar_id: &str,
    group_root: &CalendarGroupRoot,
    element_id: String,
) -> (r: TutaEvent)
    ensures
        r@ == prepared_for_create(
            event@,
            calendar_id@,
            group_root.short_events@,
            group_root.long_events@,
            element_id@,
        ),
        r.server == (ServerFields {
            permissions: r.server.permissions,
            kdf_nonce: None,
            ..event.server
        }),
        r.server.permissions@.len() == 0,
{
    let mut event = event;
    let list_id = if is_long_event(&event) {
        group_root.long_events.clone()
    } else {
        group_root.short_events.clone()
    };
    event.id = Some(IdTuple::new(list_id, element_id));
    event.owner_group = Some(calendar_id.to_owned());
    event.server.permissions = String::new();
    event.server.kdf_nonce = None;
    event.hashed_uid = match &event.uid {
        Some(u) => Some(hashed_uid(u.as_str())),
        None => None,
    };
    event
}

/// Maps a caldir event to the Tuta entity that creating it writes, and
/// checks it before the write.
pub fn prepare_create(event: &Event) -> (r: Result<TutaEvent, WriteError>)
    requires
        event_fits(event@),
    ensures
        match r {
            Ok(te) => tuta_event_matches(event@, te@) && validation(te@) is Ok,
            Err(WriteError::Mapping(m)) => tuta_error_possible(event@, m),
            Err(e) => exists|te: TutaEventView|
                #![trigger tuta_event_matches(event@, te)]
                tuta_event_matches(event@, te) && validation(te) == Err::<(), WriteError>(e),
        },
        r matches Ok(te) ==> server_empty(te.server),
{
    let remote = match from_caldir_event(event) {
        Ok(te) => te,
        Err(m) => {
            return Err(WriteError::Mapping(m));
        },
    };
    match validate(&remote) {
        Ok(()) => Ok(remote),
        Err(e) => Err(e),
    }
}

/// What an in-place or recreating update sends to Tuta: the mapped event,
/// keeping the existing uid, uid hash and a sequence one higher; an
/// in-place update also keeps the existing id, owner, server state and
/// every alarm of the entity, so its Tuta reminders stay; a recreated entity
/// starts without alarms.
pub open spec fn planned_remote(
    te: TutaEventView,
    existing: TutaEventView,
    recreate: bool,
) -> TutaEventView {
    TutaEventView {
        uid: existing.uid,
        hashed_uid: existing.hashed_uid,
        sequence: sat_inc(existing.sequence),
        id: if recreate {
            te.id
        } else {
            existing.id
        },
        owner_group: if recreate {
            te.owner_group
        } else {
            existing.owner_group
        },
        alarm_infos: if recreate {
            te.alarm_infos
        } else {
            existing.alarm_infos
        },
        ..te
    }
}

/// How an edit is written: the entity to send, and whether the old entity
/// must be deleted and this one created in its place. The event's reminders
/// are written as Tuta alarms only for a recreated entity: one updated in
/// place keeps the alarms it has.
#[derive(Debug, Clone, PartialEq, Eq)]
pub struct UpdatePlan {
    pub remote: TutaEvent,
    pub recreate: bool,
}

/// Decides how a caldir event updates its existing Tuta entity.
/// Invitations with attendees are refused; the event must map and pass
/// the checks before a write.
pub fn prepare_update(
    existing: TutaEvent,
    event: &Event,
    target_calendar: &str,
) -> (r: Result<UpdatePlan, WriteError>)
    requires
        event_fits(event@),
    ensures
        existing@.attendee_count > 0 ==> r == Err::<UpdatePlan, WriteError>(
            WriteError::InvitationWithAttendees,
        ),
        existing@.attendee_count == 0 ==> match r {
            Ok(plan) => exists|te: TutaEventView|
                #![trigger tuta_event_matches(event@, te)]
                tuta_event_matches(event@, te) && validation(te) is Ok && plan.recreate
                    == recreate_needed(existing@, te, target_calendar@) && plan.remote@
                    == planned_remote(te, existing@, plan.recreate) && (
                !plan.recreate ==> plan.remote.server == existing.server),
            Err(WriteError::Mapping(m)) => tuta_error_possible(event@, m),
            Err(e) => exists|te: TutaEventView|
                #![trigger tuta_event_matches(event@, te)]
                tuta_event_matches(event@, te) && validation(te) == Err::<(), WriteError>(e),
        },
        r matches Ok(plan) ==> (!plan.recreate ==> plan.remote@.alarm_infos
            == existing@.alarm_infos),
        r matches Ok(plan) ==> (plan.recreate ==> server_empty(plan.remote.server)),
{
    if existing.attendees.len() > 0 {
        return Err(WriteError::InvitationWithAttendees);
    }
    let mut remote = match from_caldir_event(event) {
        Ok(te) => te,
        Err(m) => {
            return Err(WriteError::Mapping(m));
        },
    };
    let ghost te = remote@;
    match validate(&remote) {
        Ok(()) => {},
        Err(e) => {
            return Err(e);
        },
    }
    let recreate = requires_recreate(&existing, &remote, target_calendar);
    let existing = existing;
    let TutaEvent {
        id,
        owner_group,
        summary: _,
        description: _,
        location: _,
        start_time: _,
        end_time: _,
        uid,
        hashed_uid,
        sequence,
        recurrence_id: _,
        start_time_zone: _,
        end_time_zone: _,
        repeat_rule: _,
        alarm_infos,
        attendees: _,
        server,
    } = existing;
    remote.uid = uid;
    remote.hashed_uid = hashed_uid;
    remote.sequence = saturating_inc(sequence);
    if !recreate {
        remote.alarm_infos = alarm_infos;
        remote.id = id;
        remote.owner_group = owner_group;
        remote.server = server;
    }
    Ok(UpdatePlan { remote, recreate })
}

/// Records the written entity in the caldir event: its id in
/// `X-TUTA-ITEM`, its sequence, and no modification time.
pub fn finish_write(event: &mut Event, remote: &TutaEvent) -> (r: Result<(), WriteError>)
    ensures
        remote@.id is None ==> r == Err::<(), WriteError>(WriteError::MissingId) && final(event)@
            == old(event)@,
        remote@.id matches Some(id) ==> r is Ok && final(event)@ == (EventView {
            x_properties: without_item_refs(old(event)@.x_properties).push(
                XPropertyView { name: ITEM_UID_PROPERTY@, value: id_text(id), params: seq![] },
            ),
            sequence: sequence_i32(remote@.sequence),
            last_modified: None,
            ..old(event)@
        }),
{
    let id = match &remote.id {
        None => {
            return Err(WriteError::MissingId);
        },
        Some(id) => id,
    };
    let text = string_of(&id_to_string(id));
    set_item_ref(event, text.as_str());
    event.sequence = if remote.sequence >= -2147483648 && remote.sequence <= 2147483647 {
        remote.sequence as i32
    } else {
        i32::MAX
    };
    event.last_modified = None;
    Ok(())
}

/// The entity that deleting the event removes: none when the event has no
/// `X-TUTA-ITEM` (in any case), an error when that property names no id.
pub fn delete_target(event: &Event) -> (r: Result<Option<IdTuple>, WriteError>)
    ensures
        match first_item_ref(event@.x_properties) {
            None => r == Ok::<Option<IdTuple>, WriteError>(None),
            Some(i) => match item_ref_id(event@.x_properties[i].value) {
                None => r == Err::<Option<IdTuple>, WriteError>(WriteError::InvalidItemRef),
                Some(id) => r matches Ok(Some(t)) && t@ == id,
            },
        },
{
    match item_ref(event) {
        None => Ok(None),
        Some(v) => match parse_raw_item_ref(v) {
            Ok(id) => Ok(Some(id)),
            Err(e) => Err(e),
        },
    }
}

} // verus!
