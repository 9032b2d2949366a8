use dioxus_web_patch::events::{
    classify_event, decode_reservation, decode_trigger, encode_reservation, event_category,
    reservation_attribute_name, EventCategory, EventPriority, TriggerError, VirtualEvent,
};
use dioxus_web_patch::text::{parse_u64, same_text};

#[test]
fn decode_click_reservation() {
    let t = decode_trigger(Some("42.7"), VirtualEvent::Occurred(EventCategory::Mouse)).unwrap();
    assert_eq!(t.scope, 42);
    assert_eq!(t.mounted_node_id, 7);
    assert_eq!(t.priority, EventPriority::High);
    assert_eq!(t.event, VirtualEvent::Occurred(EventCategory::Mouse));
}

#[test]
fn missing_reservation_drops_event() {
    let r = decode_trigger(None, VirtualEvent::Occurred(EventCategory::Mouse));
    assert_eq!(r, Err(TriggerError::MalformedTriggerAttribute));
}

#[test]
fn malformed_reservations() {
    for bad in ["", "42", "42.", ".7", "a.7", "42.x", "18446744073709551616.1"] {
        assert_eq!(decode_reservation(bad), Err(TriggerError::MalformedTriggerAttribute), "{}", bad);
    }
    assert_eq!(decode_reservation("1.2.3"), Ok((1, 2)));
    assert_eq!(decode_reservation("+1.2"), Ok((1, 2)));
}

#[test]
fn reservation_round_trip() {
    for (a, b) in [(0u64, 0u64), (42, 7), (u64::MAX, 10), (1000, u64::MAX)] {
        let v = encode_reservation(a, b);
        assert_eq!(decode_reservation(&v), Ok((a, b)));
    }
    assert_eq!(encode_reservation(42, 7), "42.7");
}

#[test]
fn attribute_name_and_category() {
    assert_eq!(event_category("onclick"), "click");
    assert_eq!(event_category("x"), "x");
    assert_eq!(reservation_attribute_name("click"), "dioxus-event-click");
}

#[test]
fn event_categories() {
    assert_eq!(classify_event("click"), EventCategory::Mouse);
    assert_eq!(classify_event("pointerdown"), EventCategory::Pointer);
    assert_eq!(classify_event("input"), EventCategory::Form);
    assert_eq!(classify_event("keyup"), EventCategory::Keyboard);
    assert_eq!(classify_event("toggle"), EventCategory::Toggle);
    assert_eq!(classify_event("waiting"), EventCategory::Media);
    assert_eq!(classify_event("unknown"), EventCategory::Other);
}

#[test]
fn parse_numbers() {
    assert_eq!(parse_u64("0"), Some(0));
    assert_eq!(parse_u64("18446744073709551615"), Some(u64::MAX));
    assert_eq!(parse_u64("18446744073709551616"), None);
    assert_eq!(parse_u64(""), None);
    assert_eq!(parse_u64("+"), None);
    assert_eq!(parse_u64("-1"), None);
    assert!(same_text("abc", "abc"));
    assert!(!same_text("abc", "abd"));
}
