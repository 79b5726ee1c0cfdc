# tuta_calendar

A caldir provider for Tuta calendars, with its logic verified by Verus.

`src/` is the verified library:

- `event`, `entity`: caldir events and Tuta calendar entities as plain values
  (times as milliseconds or days since the epoch).
- `mapping`: the conversion both ways, RRULE text included; `rrule_laws`
  proves that an RRULE the provider writes reads back as the same rule,
  and that an RRULE of that shape is written back unchanged.
- `writer`: the write path's decisions (short or long list, recreate or
  update in place, element ids, checks, recurrence overrides).
- `alarms`: the reminder trigger format and what writing reminders needs.
  An event's reminders are written as new Tuta alarms when it is created
  or recreated; an update in place keeps the alarms the entity has.
  Listing does not read reminders: `reminders_for_events` (and the app's
  `load_reminders_for_events`) reads them from the user's alarms for a
  caller that wants them.
- `listing`, `connect`, `remote_config`, `session`: what the provider's
  commands decide.
- `content`, `order`, `text`, `time`: the colour and `X-TUTA-ITEM`
  helpers, stable sorting, character-level helpers, and chrono.
- `fits`: the checks a caller makes before a conversion that needs its
  times to stay in chrono's range.

`app/` runs the provider: caldir's JSON protocol, the Tuta SDK, the
session files. `tests/` exercises the library.
