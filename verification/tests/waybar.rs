use hyprdesk::model::DeskId;
use hyprdesk::waybar::{frame_payload, status_line, strip_text, tooltip_text, ACTIVE_ICON};

fn desk(id: u8) -> DeskId {
    DeskId::new(id).expect("valid desk id in test")
}

fn text_of(line: &str) -> String {
    let value: serde_json::Value = serde_json::from_str(line).expect("line is valid JSON");
    value["text"]
        .as_str()
        .expect("text is a string")
        .to_string()
}

fn dim(label: &str) -> String {
    format!("<span alpha='50%'>{label}</span>")
}

#[test]
fn strip_shows_active_occupied_and_dimmed_persistent_desks() {
    let line = status_line(desk(3), &[desk(2), desk(3)]);
    let expected = format!("{} 2 {ACTIVE_ICON} {} {}", dim("1"), dim("4"), dim("5"));
    assert_eq!(text_of(&line), expected);
}

#[test]
fn high_desks_appear_only_while_occupied_and_ten_renders_zero() {
    let with_ten = text_of(&status_line(desk(1), &[desk(10)]));
    assert!(with_ten.ends_with(" 0"), "text: {with_ten}");
    let without = text_of(&status_line(desk(1), &[]));
    assert!(!without.contains('7'), "text: {without}");
}

#[test]
fn active_high_desk_extends_the_strip() {
    let text = text_of(&status_line(desk(8), &[]));
    assert!(text.ends_with(ACTIVE_ICON), "text: {text}");
}

#[test]
fn tooltip_names_the_current_desk() {
    let line = status_line(desk(7), &[]);
    let value: serde_json::Value = serde_json::from_str(&line).expect("valid JSON");
    assert_eq!(value["tooltip"], "Desk 7");
}

// ---------------------------------------------------------------------
// Further cases
// ---------------------------------------------------------------------

#[test]
fn the_payload_line_is_serde_json_compact_output() {
    let line = status_line(desk(1), &[]);
    assert_eq!(
        line,
        format!(
            "{{\"text\":\"{ACTIVE_ICON} {} {} {} {}\",\"tooltip\":\"Desk 1\"}}",
            dim("2"),
            dim("3"),
            dim("4"),
            dim("5")
        )
    );
    assert_eq!(frame_payload("\"a\"", "\"b\""), "{\"text\":\"a\",\"tooltip\":\"b\"}");
}

#[test]
fn strip_text_lists_items_in_desk_order() {
    assert_eq!(
        strip_text(desk(10), &[desk(6), desk(1)]),
        format!("1 {} {} {} {} 6 {ACTIVE_ICON}", dim("2"), dim("3"), dim("4"), dim("5"))
    );
    assert_eq!(tooltip_text(desk(10)), "Desk 10");
}

#[test]
fn every_waybar_line_is_a_single_line() {
    for id in 1..=10 {
        let line = status_line(desk(id), &[desk(1), desk(7), desk(10)]);
        assert!(!line.contains('\n'), "line: {line:?}");
        assert!(line.ends_with(&format!(",\"tooltip\":\"Desk {id}\"}}")), "line: {line:?}");
    }
}
