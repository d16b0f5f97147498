use voxmim::pipe::{check_and_clear, classify_message, PipeMessage, SettingsSignal};

#[test]
fn messages_are_classified() {
    assert_eq!(classify_message(b"reload"), PipeMessage::Reload);
    assert_eq!(classify_message(b"  reload\r\n"), PipeMessage::Reload);
    assert_eq!(classify_message(b"debug"), PipeMessage::Debug);
    assert_eq!(classify_message(b"Reload"), PipeMessage::Other);
    assert_eq!(classify_message(b"\xffreload"), PipeMessage::Other);
    assert_eq!(classify_message(b""), PipeMessage::Other);
}

#[test]
fn reload_is_seen_once() {
    let mut s = SettingsSignal::new();
    assert!(!check_and_clear(&mut s));
    s.on_message(PipeMessage::Debug);
    assert!(!check_and_clear(&mut s));
    s.on_message(PipeMessage::Reload);
    assert!(check_and_clear(&mut s));
    assert!(!check_and_clear(&mut s));
}
