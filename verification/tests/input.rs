use tmux_session_picker::mouse::{
    decode_input, mouse_drag_button, mouse_plain_button, mouse_wheel_delta, parse_mouse_escape,
    visible_index_for_mouse_row, wants_more, InputEvent, MouseEvent,
};

#[test]
fn sgr_mouse_parser_decodes_press_and_release() {
    let press = parse_mouse_escape(b"\x1b[<0;12;7M").unwrap();
    assert_eq!(press.button, 0);
    assert_eq!(press.col, 12);
    assert_eq!(press.row, 7);
    assert!(press.pressed);

    let release = parse_mouse_escape(b"\x1b[<0;12;7m").unwrap();
    assert!(!release.pressed);
}

#[test]
fn sgr_mouse_parser_rejects_malformed_input() {
    assert!(parse_mouse_escape(b"\x1b[M !").is_none());
    assert!(parse_mouse_escape(b"\x1b[<0;12M").is_none());
    assert!(parse_mouse_escape(b"\x1b[<x;12;7M").is_none());
}

#[test]
fn sgr_mouse_numbers_have_their_limits() {
    assert!(parse_mouse_escape(b"\x1b[<0;0;7M").is_none());
    assert!(parse_mouse_escape(b"\x1b[<0;7;0M").is_none());
    assert!(parse_mouse_escape(b"\x1b[<65536;1;1M").is_none());
    assert_eq!(parse_mouse_escape(b"\x1b[<65535;+1;01M").unwrap().button, 65535);
    assert!(parse_mouse_escape(b"\x1b[<0;1;1;1M").is_none());
    assert!(parse_mouse_escape(b"\x1b[<0;1;1").is_none());
    assert!(parse_mouse_escape(b"\x1b[<M").is_none());
    assert!(parse_mouse_escape(b"\x1b[<0;\xff;1M").is_none());
    assert!(parse_mouse_escape(b"[<0;1;1M").is_none());
    assert!(parse_mouse_escape(b"").is_none());
}

#[test]
fn legacy_mouse_parser_decodes_press() {
    let event = parse_mouse_escape(b"\x1b[M *'").unwrap();

    assert_eq!(event.button, 0);
    assert_eq!(event.col, 10);
    assert_eq!(event.row, 7);
    assert!(event.pressed);
}

#[test]
fn legacy_mouse_parser_decodes_release() {
    assert!(!parse_mouse_escape(b"\x1b[M#!!").unwrap().pressed);
    assert!(parse_mouse_escape(b"\x1b[M\x1f!!").is_none());
    assert!(parse_mouse_escape(b"\x1b[M  !").is_none());
}

#[test]
fn mouse_wheel_buttons_map_to_scroll_delta() {
    let down = parse_mouse_escape(b"\x1b[<65;12;7M").unwrap();
    let up = parse_mouse_escape(b"\x1b[<64;12;7M").unwrap();

    assert_eq!(mouse_wheel_delta(down.button), Some(3));
    assert_eq!(mouse_wheel_delta(up.button), Some(-3));
    assert_eq!(mouse_wheel_delta(0), None);
}

#[test]
fn mouse_buttons_are_told_apart() {
    assert_eq!(mouse_plain_button(2), Some(2));
    assert_eq!(mouse_plain_button(32), None);
    assert_eq!(mouse_plain_button(64), None);
    assert_eq!(mouse_drag_button(32), Some(0));
    assert_eq!(mouse_drag_button(0), None);
    assert_eq!(mouse_drag_button(96), None);
    assert_eq!(mouse_wheel_delta(66), None);
}

#[test]
fn mouse_row_maps_into_scrolled_visible_list() {
    assert_eq!(visible_index_for_mouse_row(8, 8, 4, 3, 9), Some(3));
    assert_eq!(visible_index_for_mouse_row(11, 8, 4, 3, 9), Some(6));
}

#[test]
fn mouse_row_outside_rendered_sessions_is_ignored() {
    assert_eq!(visible_index_for_mouse_row(7, 8, 4, 0, 9), None);
    assert_eq!(visible_index_for_mouse_row(12, 8, 4, 0, 9), None);
    assert_eq!(visible_index_for_mouse_row(10, 8, 4, 0, 2), None);
}

#[test]
fn sequences_are_read_to_their_end() {
    let open = |bytes: &[u8]| wants_more(&bytes.to_vec());

    assert!(!open(b"j"));
    assert!(open(b"\x1b"));
    assert!(open(b"\x1b[<0;12;7"));
    assert!(!open(b"\x1b[<0;12;7M"));
    assert!(!open(b"\x1b[<0;12;7m"));
    assert!(open(b"\x1b[M !"));
    assert!(!open(b"\x1b[M !!"));
    assert!(open(b"\x1b[A"));
    assert!(!open(&[0x1b; 32]));
}

#[test]
fn inputs_are_keys_mouse_events_or_nothing() {
    let decode = |bytes: &[u8]| decode_input(&bytes.to_vec());

    assert_eq!(decode(b"j"), InputEvent::Key(b'j'));
    assert_eq!(decode(b"\x1b"), InputEvent::Key(0x1b));
    assert_eq!(decode(b"\x1b[A"), InputEvent::Ignore);
    assert_eq!(
        decode(b"\x1b[<0;12;7M"),
        InputEvent::Mouse(MouseEvent { button: 0, col: 12, row: 7, pressed: true })
    );
}
