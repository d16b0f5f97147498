use voxmim::lang::encode_utf16;
use voxmim::text::dictionary::Dictionary;
use voxmim::text::phrase_file::{add_custom_phrase, parse_phrase_file};
use voxmim::text::repetitions::fix_repetitions;
use voxmim::text::space_fixer::fix_spaces;
use voxmim::text::user_dict::UserDict;
use voxmim::ui::tray_menu::{menu_items, TrayMenuState};

#[test]
fn repetition_fix_is_idempotent_on_examples() {
    for s in ["да-да-да нет", "ну-ну ну-ну-ну", "a - b", "- -", "  x  y ", "да-нет-да", ""] {
        let once = fix_repetitions(s);
        assert_eq!(fix_repetitions(&once), once);
    }
}

#[test]
fn repetition_fix_leaves_no_stuttered_word() {
    for s in ["да-да-да нет", "ну-ну ну-ну-ну", "a-a-a-a-a-a", "да--да", "x-x y-y-z", "-"] {
        let r = fix_repetitions(s);
        for w in r.split_whitespace() {
            let parts: Vec<&str> = w.split('-').collect();
            assert!(!(parts.len() >= 2 && parts.iter().all(|p| *p == parts[0])), "{w}");
        }
    }
    assert_eq!(fix_repetitions("  "), "  ");
    assert_eq!(fix_repetitions("a-a-a-a"), "a");
}

#[test]
fn joining_never_adds_words() {
    let dict = Dictionary::from_words(&["произвольных", "варианты", "красный"]);
    for s in ["произволь ных варианты", "крас ный крас ный", "a b c d"] {
        let before = s.split_whitespace().count();
        let after = fix_spaces(s, &dict).split_whitespace().count();
        assert!(after <= before && 2 * after >= before);
    }
}

#[test]
fn menu_ids_are_distinct() {
    let items = menu_items(&TrayMenuState { vad_on: true, wake_on: false, console_visible: true });
    let ids: Vec<u32> = items.iter().map(|i| i.id).filter(|&id| id != 0).collect();
    for (i, a) in ids.iter().enumerate() {
        for b in &ids[i + 1..] {
            assert_ne!(a, b);
        }
    }
}

#[test]
fn utf16_length_between_one_and_two_units_per_char() {
    for s in ["", "abc", "мир", "😀😀", "a😀b"] {
        let chars: Vec<char> = s.chars().collect();
        let n = encode_utf16(&chars).len();
        assert!(chars.len() <= n && n <= 2 * chars.len());
    }
}

#[test]
fn added_entry_is_looked_up_and_others_kept() {
    let mut d = UserDict::new();
    d.add_entry("фыва", "привет");
    d.add_entry("олдж", "мир");
    d.add_entry("  ФЫВА ", " здравствуй ");
    let entries = d.entries();
    assert!(entries.contains(&("фыва".to_string(), "здравствуй".to_string())));
    assert!(entries.contains(&("олдж".to_string(), "мир".to_string())));
    assert_eq!(entries.len(), 2);
    assert_eq!(d.apply("фыва олдж"), "здравствуй мир");
}

#[test]
fn empty_dictionary_changes_nothing() {
    let d = UserDict::new();
    for s in ["", "текст", "  два  пробела "] {
        assert_eq!(d.apply(s), s);
    }
}

#[test]
fn added_phrase_is_read_back() {
    let content = "# заголовок\nпервая\nвторая\n";
    let out = add_custom_phrase(content, " третья ").unwrap();
    let (headers, phrases) = parse_phrase_file(&out);
    assert_eq!(headers, vec!["# заголовок".to_string()]);
    assert!(phrases.contains(&"третья".to_string()));
    assert_eq!(phrases.len(), 3);
}
