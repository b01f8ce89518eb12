use territory::player::{interpret_frame, parse_click_frame, FrameShape, PlayerDisconnectReason};
use territory::schemas::Position;

#[test]
fn well_formed_click_frame_is_forwarded() {
    let r = parse_click_frame(r#"{"type":"click","data":{"position":{"x":3,"y":4}}}"#);
    assert_eq!(r, Ok(Position { x: 3, y: 4 }));
}

#[test]
fn click_frame_tolerates_extra_fields() {
    let r = parse_click_frame(
        r#"{"type":"click","data":{"position":{"x":0,"y":19,"z":9}},"seq":1}"#,
    );
    assert_eq!(r, Ok(Position { x: 0, y: 19 }));
}

#[test]
fn unknown_message_type_disconnects() {
    let r = parse_click_frame(r#"{"type":"chat","data":{"text":"hi"}}"#);
    assert_eq!(r, Err(PlayerDisconnectReason::InvalidData));
}

#[test]
fn missing_data_field_disconnects() {
    let r = parse_click_frame(r#"{"type":"click"}"#);
    assert_eq!(r, Err(PlayerDisconnectReason::InvalidData));
}

#[test]
fn missing_type_field_disconnects() {
    let r = parse_click_frame(r#"{"data":{"position":{"x":1,"y":1}}}"#);
    assert_eq!(r, Err(PlayerDisconnectReason::InvalidData));
}

#[test]
fn non_string_type_disconnects() {
    let r = parse_click_frame(r#"{"type":7,"data":{"position":{"x":1,"y":1}}}"#);
    assert_eq!(r, Err(PlayerDisconnectReason::InvalidData));
}

#[test]
fn non_object_document_disconnects() {
    let r = parse_click_frame(r#"[1,2,3]"#);
    assert_eq!(r, Err(PlayerDisconnectReason::InvalidData));
}

#[test]
fn malformed_json_disconnects() {
    let r = parse_click_frame("click 3 4");
    assert_eq!(r, Err(PlayerDisconnectReason::InvalidData));
}

#[test]
fn coordinate_beyond_u32_disconnects() {
    let r = parse_click_frame(r#"{"type":"click","data":{"position":{"x":4294967296,"y":0}}}"#);
    assert_eq!(r, Err(PlayerDisconnectReason::InvalidData));
    let r = parse_click_frame(r#"{"type":"click","data":{"position":{"x":4294967295,"y":0}}}"#);
    assert_eq!(r, Ok(Position { x: u32::MAX, y: 0 }));
}

#[test]
fn fractional_or_negative_coordinates_disconnect() {
    let r = parse_click_frame(r#"{"type":"click","data":{"position":{"x":1.5,"y":0}}}"#);
    assert_eq!(r, Err(PlayerDisconnectReason::InvalidData));
    let r = parse_click_frame(r#"{"type":"click","data":{"position":{"x":-1,"y":0}}}"#);
    assert_eq!(r, Err(PlayerDisconnectReason::InvalidData));
}

#[test]
fn incomplete_position_disconnects() {
    let r = parse_click_frame(r#"{"type":"click","data":{"position":{"x":1}}}"#);
    assert_eq!(r, Err(PlayerDisconnectReason::InvalidData));
    let r = parse_click_frame(r#"{"type":"click","data":{}}"#);
    assert_eq!(r, Err(PlayerDisconnectReason::InvalidData));
}

#[test]
fn envelope_rules_on_a_decoded_shape() {
    let ok = FrameShape {
        is_object: true,
        msg_type: Some(String::from("click")),
        has_data: true,
        click: Some(Position { x: 2, y: 9 }),
    };
    assert_eq!(interpret_frame(&ok), Ok(Position { x: 2, y: 9 }));
    let wrong_keyword = FrameShape { msg_type: Some(String::from("Click")), ..ok };
    assert_eq!(
        interpret_frame(&wrong_keyword),
        Err(PlayerDisconnectReason::InvalidData)
    );
}
