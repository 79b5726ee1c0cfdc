//! Verified core of a caldir provider for Tuta calendars: the mapping between
//! caldir events and Tuta calendar entities, the reminder trigger format, the
//! write-path decisions and the stored session and remote configuration.

pub mod text;
pub mod event;
pub mod content;
pub mod entity;
pub mod order;
pub mod alarms;
pub mod time;
pub mod mapping;
pub mod writer;
pub mod remote_config;
pub mod session;
pub mod listing;
pub mod connect;
pub mod fits;
pub mod rrule_laws;
pub mod event_laws;
