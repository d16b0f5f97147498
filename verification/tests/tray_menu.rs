use voxmim::ui::dialog::pick_audio_file;
use voxmim::ui::tray::{request_exit, set_recovering, set_vad_state, set_wake_state, TrayFlags, TrayManager};
use voxmim::ui::tray_menu::{
    menu_items, MenuKind, TrayMenuState, CMD_ADD_HALL, CMD_ADD_WORD, CMD_AUTOSTOP, CMD_CONSOLE, CMD_EDIT_DICT,
    CMD_EDIT_HALL, CMD_MATH, CMD_QUIT, CMD_SETTINGS, CMD_SUBTITLE_FILE, CMD_TRANSCRIBE_FILE, CMD_WAKE,
};

fn state() -> TrayMenuState {
    TrayMenuState { vad_on: false, wake_on: false, console_visible: false }
}

#[test]
fn test_menu_20_items_exact_order() {
    let items = menu_items(&state());
    assert_eq!(items.len(), 20);
    let ids: Vec<u32> = items.iter().map(|i| i.id).collect();
    assert_eq!(
        ids,
        vec![
            0,
            0,
            CMD_SETTINGS,
            0,
            CMD_CONSOLE,
            0,
            CMD_ADD_WORD,
            CMD_EDIT_DICT,
            0,
            CMD_ADD_HALL,
            CMD_EDIT_HALL,
            0,
            CMD_TRANSCRIBE_FILE,
            CMD_SUBTITLE_FILE,
            0,
            CMD_WAKE,
            CMD_AUTOSTOP,
            CMD_MATH,
            0,
            CMD_QUIT,
        ]
    );
}

#[test]
fn test_first_is_version_grayed() {
    let items = menu_items(&state());
    assert_eq!(items[0].kind, MenuKind::Version);
    assert_eq!(items[0].label_key, "tray.menu.version");
}

#[test]
fn test_console_label_depends_on_visibility() {
    let shown = menu_items(&TrayMenuState { console_visible: true, ..state() });
    let hidden = menu_items(&TrayMenuState { console_visible: false, ..state() });
    assert_eq!(shown[4].label_key, "tray.menu.toggle_console.hide");
    assert_eq!(hidden[4].label_key, "tray.menu.toggle_console.show");
}

#[test]
fn test_vad_checked_when_enabled() {
    let on = menu_items(&TrayMenuState { vad_on: true, ..state() });
    let off = menu_items(&state());
    assert_eq!(on[16].kind, MenuKind::Checked(true));
    assert_eq!(off[16].kind, MenuKind::Checked(false));
    assert_eq!(on[16].id, CMD_AUTOSTOP);
}

#[test]
fn test_wake_checked_when_enabled() {
    let on = menu_items(&TrayMenuState { wake_on: true, ..state() });
    let off = menu_items(&state());
    assert_eq!(on[15].kind, MenuKind::Checked(true));
    assert_eq!(off[15].kind, MenuKind::Checked(false));
    assert_eq!(on[15].id, CMD_WAKE);
}

#[test]
fn test_quit_is_last() {
    let items = menu_items(&state());
    assert_eq!(items[19].kind, MenuKind::Item);
    assert_eq!(items[19].id, CMD_QUIT);
    assert_eq!(items[19].label_key, "tray.menu.quit");
}

#[test]
fn separators_have_no_id_and_no_key() {
    for item in menu_items(&TrayMenuState { vad_on: true, wake_on: true, console_visible: true }) {
        if item.kind == MenuKind::Separator {
            assert_eq!(item.id, 0);
            assert_eq!(item.label_key, "");
        } else {
            assert!(!item.label_key.is_empty());
        }
    }
}

#[test]
fn tray_flags_feed_the_menu() {
    let mut flags = TrayFlags::new();
    set_vad_state(&mut flags, true);
    set_wake_state(&mut flags, true);
    set_recovering(&mut flags, true);
    assert!(flags.recovering && !flags.should_exit);
    request_exit(&mut flags);
    assert!(flags.should_exit);
    let items = menu_items(&flags.menu_state(false));
    assert_eq!(items[15].kind, MenuKind::Checked(true));
    assert_eq!(items[16].kind, MenuKind::Checked(true));
    set_vad_state(&mut flags, false);
    assert_eq!(menu_items(&flags.menu_state(false))[16].kind, MenuKind::Checked(false));
}

#[test]
fn tray_manager_reports_and_picker_chooses_nothing() {
    assert_eq!(TrayManager::new().run(), "TrayManager: macOS tray runs on main thread via run_tray_main()");
    assert_eq!(pick_audio_file(), None);
}
