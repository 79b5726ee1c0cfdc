//! The Tuta side of the mapping: calendar entities as plain values.
//!
//! Tuta stores instants as milliseconds since the epoch.

use vstd::prelude::*;

verus! {

/// The id of an element in a Tuta list: `<list-id>/<element-id>`.
#[derive(Debug, Clone, PartialEq, Eq)]
pub struct IdTuple {
    pub list_id: String,
    pub element_id: String,
}

pub struct IdTupleView {
    pub list_id: Seq<char>,
    pub element_id: Seq<char>,
}

impl View for IdTuple {
    type V = IdTupleView;

    open spec fn view(&self) -> IdTupleView {
        IdTupleView { list_id: self.list_id@, element_id: self.element_id@ }
    }
}

impl IdTuple {
    pub fn new(list_id: String, element_id: String) -> (r: IdTuple)
        ensures
            r@.list_id == list_id@,
            r@.element_id == element_id@,
    {
        IdTuple { list_id, element_id }
    }

    /// A copy of this id.
    pub fn duplicate(&self) -> (r: IdTuple)
        ensures
            r@ == self@,
    {
        IdTuple { list_id: self.list_id.clone(), element_id: self.element_id.clone() }
    }
}

pub open spec fn ids_view(v: Seq<IdTuple>) -> Seq<IdTupleView> {
    v.map_values(|i: IdTuple| i@)
}

pub open spec fn opt_id(o: Option<IdTuple>) -> Option<IdTupleView> {
    match o {
        Some(i) => Some(i@),
        None => None,
    }
}

/// A `BYxxx` part of a repeat rule: its kind (0 `BYMINUTE` .. 8 `WKST`) and
/// one value.
#[derive(Debug, Clone, PartialEq, Eq)]
pub struct AdvancedRule {
    pub rule_type: i64,
    pub interval: String,
}

pub struct AdvancedRuleView {
    pub rule_type: i64,
    pub interval: Seq<char>,
}

impl View for AdvancedRule {
    type V = AdvancedRuleView;

    open spec fn view(&self) -> AdvancedRuleView {
        AdvancedRuleView { rule_type: self.rule_type, interval: self.interval@ }
    }
}

pub open spec fn advanced_view(v: Seq<AdvancedRule>) -> Seq<AdvancedRuleView> {
    v.map_values(|a: AdvancedRule| a@)
}

/// A Tuta repeat rule.
#[derive(Debug, Clone, PartialEq, Eq)]
pub struct RepeatRule {
    /// 0 daily, 1 weekly, 2 monthly, 3 yearly.
    pub frequency: i64,
    /// 0 never, 1 after a count, 2 at a date.
    pub end_type: i64,
    pub end_value: Option<i64>,
    pub interval: i64,
    pub time_zone: String,
    /// The excluded occurrences, in milliseconds since the epoch.
    pub excluded_dates: Vec<u64>,
    pub advanced_rules: Vec<AdvancedRule>,
}

pub struct RepeatRuleView {
    pub frequency: i64,
    pub end_type: i64,
    pub end_value: Option<i64>,
    pub interval: i64,
    pub time_zone: Seq<char>,
    pub excluded_dates: Seq<u64>,
    pub advanced_rules: Seq<AdvancedRuleView>,
}

impl View for RepeatRule {
    type V = RepeatRuleView;

    open spec fn view(&self) -> RepeatRuleView {
        RepeatRuleView {
            frequency: self.frequency,
            end_type: self.end_type,
            end_value: self.end_value,
            interval: self.interval,
            time_zone: self.time_zone@,
            excluded_dates: self.excluded_dates@,
            advanced_rules: advanced_view(self.advanced_rules@),
        }
    }
}

pub open spec fn opt_rule(o: Option<RepeatRule>) -> Option<RepeatRuleView> {
    match o {
        Some(r) => Some(r@),
        None => None,
    }
}

/// What the server keeps about an entity beyond its calendar content:
/// permissions, ownership keys, and invitation state.
#[derive(Debug, Clone, PartialEq, Eq)]
pub struct ServerFields {
    pub permissions: String,
    pub owner_enc_session_key: Option<Vec<u8>>,
    pub owner_key_version: Option<i64>,
    pub kdf_nonce: Option<Vec<u8>>,
    pub invited_confidentially: Option<bool>,
    pub sender: Option<String>,
    pub pending_invitation: Option<bool>,
}

/// Whether an entity carries none of the server's fields.
pub open spec fn server_empty(s: ServerFields) -> bool {
    &&& s.permissions@.len() == 0
    &&& s.owner_enc_session_key is None
    &&& s.owner_key_version is None
    &&& s.kdf_nonce is None
    &&& s.invited_confidentially is None
    &&& s.sender is None
    &&& s.pending_invitation is None
}

impl ServerFields {
    /// What a freshly mapped entity carries: nothing.
    pub fn empty() -> (r: ServerFields)
        ensures
            r.permissions@.len() == 0,
            r.owner_enc_session_key is None,
            r.owner_key_version is None,
            r.kdf_nonce is None,
            r.invited_confidentially is None,
            r.sender is None,
            r.pending_invitation is None,
    {
        ServerFields {
            permissions: String::new(),
            owner_enc_session_key: None,
            owner_key_version: None,
            kdf_nonce: None,
            invited_confidentially: None,
            sender: None,
            pending_invitation: None,
        }
    }
}

/// A Tuta calendar event entity.
#[derive(Debug, Clone, PartialEq, Eq)]
pub struct TutaEvent {
    pub id: Option<IdTuple>,
    pub owner_group: Option<String>,
    pub summary: String,
    pub description: String,
    pub location: String,
    pub start_time: u64,
    pub end_time: u64,
    pub uid: Option<String>,
    pub hashed_uid: Option<Vec<u8>>,
    pub sequence: i64,
    pub recurrence_id: Option<u64>,
    pub start_time_zone: Option<String>,
    pub end_time_zone: Option<String>,
    pub repeat_rule: Option<RepeatRule>,
    pub alarm_infos: Vec<IdTuple>,
    /// The mail addresses of the invited attendees.
    pub attendees: Vec<String>,
    pub server: ServerFields,
}

pub open spec fn opt_text(o: Option<String>) -> Option<Seq<char>> {
    match o {
        Some(s) => Some(s@),
        None => None,
    }
}

pub open spec fn opt_bytes(o: Option<Vec<u8>>) -> Option<Seq<u8>> {
    match o {
        Some(s) => Some(s@),
        None => None,
    }
}

pub struct TutaEventView {
    pub id: Option<IdTupleView>,
    pub owner_group: Option<Seq<char>>,
    pub summary: Seq<char>,
    pub description: Seq<char>,
    pub location: Seq<char>,
    pub start_time: u64,
    pub end_time: u64,
    pub uid: Option<Seq<char>>,
    pub hashed_uid: Option<Seq<u8>>,
    pub sequence: i64,
    pub recurrence_id: Option<u64>,
    pub start_time_zone: Option<Seq<char>>,
    pub end_time_zone: Option<Seq<char>>,
    pub repeat_rule: Option<RepeatRuleView>,
    pub alarm_infos: Seq<IdTupleView>,
    pub attendee_count: nat,
}

impl View for TutaEvent {
    type V = TutaEventView;

    open spec fn view(&self) -> TutaEventView {
        TutaEventView {
            id: opt_id(self.id),
            owner_group: opt_text(self.owner_group),
            summary: self.summary@,
            description: self.description@,
            location: self.location@,
            start_time: self.start_time,
            end_time: self.end_time,
            uid: opt_text(self.uid),
            hashed_uid: opt_bytes(self.hashed_uid),
            sequence: self.sequence,
            recurrence_id: self.recurrence_id,
            start_time_zone: opt_text(self.start_time_zone),
            end_time_zone: opt_text(self.end_time_zone),
            repeat_rule: opt_rule(self.repeat_rule),
            alarm_infos: ids_view(self.alarm_infos@),
            attendee_count: self.attendees@.len(),
        }
    }
}

/// The root of a Tuta calendar: the lists that hold its short and its long
/// (or recurring) events.
#[derive(Debug, Clone, PartialEq, Eq)]
pub struct CalendarGroupRoot {
    pub short_events: String,
    pub long_events: String,
}

} // verus!
