use voxmim::lang::{encode_utf16, has_locale, t, t_utf16, Locale};

fn ru() -> Locale {
    let mut l = Locale::new();
    l.load(&vec![
        ("tray.menu.quit".to_string(), "Выход".to_string()),
        ("a".to_string(), "first".to_string()),
        ("a".to_string(), "second".to_string()),
    ]);
    l
}

#[test]
fn missing_locale_returns_keys() {
    let l = Locale::new();
    assert!(!has_locale(&l));
    assert_eq!(t(&l, "tray.menu.quit"), "tray.menu.quit");
}

#[test]
fn loaded_locale_translates() {
    let l = ru();
    assert!(has_locale(&l));
    assert_eq!(t(&l, "tray.menu.quit"), "Выход");
    assert_eq!(t(&l, "a"), "second");
    assert_eq!(t(&l, "missing.key"), "missing.key");
}

#[test]
fn utf16_with_terminator() {
    let l = ru();
    let expected: Vec<u16> = "Выход\0".encode_utf16().collect();
    assert_eq!(t_utf16(&l, "tray.menu.quit"), expected);
    assert_eq!(t_utf16(&Locale::new(), ""), vec![0u16]);
}

#[test]
fn utf16_encoder_matches_std() {
    for s in ["", "abc", "привет", "😀 x 𝄞", "\u{FFFF}\u{10000}\u{10FFFF}"] {
        let chars: Vec<char> = s.chars().collect();
        let expected: Vec<u16> = s.encode_utf16().collect();
        assert_eq!(encode_utf16(&chars), expected);
    }
}

#[test]
fn locale_loads_from_json_document() {
    let mut l = Locale::new();
    assert!(l.load_json(r#"{"menu.quit": "Выход", "menu.vad": "Авто-режим"}"#));
    assert!(has_locale(&l));
    assert_eq!(t(&l, "menu.quit"), "Выход");
    assert_eq!(t(&l, "menu.vad"), "Авто-режим");
    assert_eq!(t(&l, "menu.unknown"), "menu.unknown");
}

#[test]
fn locale_keeps_previous_on_broken_json() {
    let mut l = Locale::new();
    assert!(!l.load_json("{not json"));
    assert!(!has_locale(&l));
    assert!(l.load_json(r#"{"a": "б"}"#));
    assert!(!l.load_json(r#"{"a": 1}"#));
    assert!(!l.load_json(r#"["a", "b"]"#));
    assert_eq!(t(&l, "a"), "б");
}
