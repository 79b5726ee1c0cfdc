use tuta_calendar::content::{item_ref, normalize_color, set_item_ref, ITEM_UID_PROPERTY};
use tuta_calendar::event::{Event, EventTime, XProperty};

fn date_event() -> Event {
    // 2026-07-18 as days since 1970-01-01.
    Event::new("Test", EventTime::Date(20_652))
}

#[test]
fn normalizes_tuta_colors() {
    assert_eq!(normalize_color("8bc34a"), "#8bc34a");
    assert_eq!(normalize_color("#8bc34aff"), "#8bc34a");
    assert_eq!(normalize_color("green"), "green");
}

#[test]
fn item_ref_is_deduplicated() {
    let mut event = date_event();
    set_item_ref(&mut event, "old");
    set_item_ref(&mut event, "new");
    assert_eq!(item_ref(&event), Some("new"));
    assert_eq!(event.x_properties.len(), 1);
}

#[test]
fn normalize_color_keeps_other_text_without_hash() {
    assert_eq!(normalize_color("#abc"), "abc");
    assert_eq!(normalize_color("#ABCDEF"), "#ABCDEF");
    assert_eq!(normalize_color("12345g"), "12345g");
    assert_eq!(normalize_color("1234567"), "1234567");
    assert_eq!(normalize_color(""), "");
}

#[test]
fn item_ref_matches_any_ascii_case_and_keeps_other_properties() {
    let mut event = date_event();
    event.x_properties.push(XProperty::new("X-LOCAL", "kept"));
    event.x_properties.push(XProperty::new("x-tuta-item", "a/b"));
    assert_eq!(item_ref(&event), Some("a/b"));
    set_item_ref(&mut event, "c/d");
    assert_eq!(event.x_properties.len(), 2);
    assert_eq!(event.x_properties[0].name, "X-LOCAL");
    assert_eq!(event.x_properties[1].name, ITEM_UID_PROPERTY);
    assert_eq!(event.x_properties[1].value, "c/d");
    assert_eq!(item_ref(&event), Some("c/d"));
}

#[test]
fn item_ref_is_absent_without_property() {
    assert_eq!(item_ref(&date_event()), None);
}

#[test]
fn normalizing_a_colour_twice_changes_nothing_more() {
    for color in ["#8bc34aff", "8bc34a", "#abc", "green", "#12345g", ""] {
        let once = normalize_color(color);
        assert_eq!(normalize_color(&once), once);
    }
    assert_eq!(normalize_color("##abc"), "#abc");
    assert_eq!(normalize_color(&normalize_color("##abc")), "abc");
}
