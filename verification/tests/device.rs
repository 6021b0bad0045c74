use pocket_calibre::keyboard::{fill_buffer, Field, Keyboard, BUFFER_LEN};
use pocket_calibre::net::{connect_result, ensure_online, ConnectError, NetStep};

#[test]
fn only_a_ready_interface_is_a_connection() {
    assert_eq!(ensure_online(0), NetStep::Connect);
    // The interfaces exist, and that is all.
    assert_eq!(ensure_online(0xff), NetStep::Connect);
    assert_eq!(ensure_online(inkview::bindings::NET_WIFIREADY as i32), NetStep::Online);
    assert_eq!(ensure_online(inkview::bindings::NET_BTREADY as i32), NetStep::Online);
    assert_eq!(ensure_online(inkview::bindings::NET_WIFI as i32), NetStep::Connect);
}

#[test]
fn connecting_reports_its_code() {
    assert_eq!(connect_result(0), Ok(()));
    assert_eq!(connect_result(7), Err(ConnectError(7)));
    assert_eq!(ConnectError(-3).message(), "couldn't connect to the network (code -3)");
}

#[test]
fn rows_stand_for_fields() {
    let fields: Vec<Option<Field>> = (-1..8).map(Field::from_index).collect();
    assert_eq!(
        fields,
        [
            None,
            Some(Field::Server),
            Some(Field::User),
            Some(Field::Password),
            Some(Field::Library),
            Some(Field::DownloadDir),
            Some(Field::Formats),
            Some(Field::Limit),
            None,
        ]
    );
}

#[test]
fn fields_have_keyboard_flags() {
    assert_eq!(Field::Server.flags(), inkview::bindings::KBD_URL as i32);
    assert_eq!(Field::Password.flags(), inkview::bindings::KBD_PASSWORD as i32);
    assert_eq!(Field::User.flags(), inkview::bindings::KBD_ENTEXT as i32);
    assert_eq!(Field::Library.flags(), inkview::bindings::KBD_ENTEXT as i32);
    assert_eq!(Field::DownloadDir.flags(), inkview::bindings::KBD_ENTEXT as i32);
    assert_eq!(
        Field::Formats.flags(),
        (inkview::bindings::KBD_ENTEXT | inkview::bindings::KBD_UPPER) as i32
    );
    assert_eq!(Field::Limit.flags(), inkview::bindings::KBD_NUMERIC as i32);
}

#[test]
fn the_buffer_ends_in_a_zero() {
    let short = fill_buffer("да");
    assert_eq!(short.len(), BUFFER_LEN);
    assert_eq!(&short[..5], &[0xd0, 0xb4, 0xd0, 0xb0, 0]);
    let long = fill_buffer(&"x".repeat(600));
    assert_eq!(long.len(), BUFFER_LEN);
    assert_eq!(long[BUFFER_LEN - 2], b'x');
    assert_eq!(long[BUFFER_LEN - 1], 0);
}

#[test]
fn an_answer_goes_to_the_field_that_was_asked_for() {
    let mut keyboard = Keyboard::new();
    assert!(keyboard.trampoline().is_none());
    assert!(keyboard.on_done(Some("x".to_string())).is_none());

    assert!(keyboard.request(Field::Limit, "Limit".to_string(), "200".to_string(), false));
    // A second request does not take the place of the first.
    assert!(!keyboard.request(Field::User, "User".to_string(), String::new(), false));
    let dialog = keyboard.trampoline().unwrap();
    assert_eq!(dialog.title, "Limit");
    assert_eq!(dialog.flags, Field::Limit.flags());
    assert_eq!(&dialog.buffer[..4], b"200\0");
    assert!(!keyboard.request(Field::User, "User".to_string(), String::new(), true));
    assert_eq!(
        keyboard.on_done(Some("300".to_string())),
        Some((Field::Limit, Some("300".to_string())))
    );
    assert_eq!(keyboard.on_done(None), None);

    assert!(keyboard.request(Field::User, "User".to_string(), String::new(), false));
    keyboard.trampoline();
    assert_eq!(keyboard.on_done(None), Some((Field::User, None)));
}

#[test]
fn a_title_with_a_zero_is_not_shown() {
    let mut keyboard = Keyboard::new();
    assert!(keyboard.request(Field::User, "a\0b".to_string(), String::new(), false));
    assert!(keyboard.trampoline().is_none());
    assert!(keyboard.pending.is_none());
    assert!(keyboard.active.is_none());
}
