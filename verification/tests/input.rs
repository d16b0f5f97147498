use voxmim::input::hotkeys::{on_mouse_button, reset_recording_state, set_vad_enabled, HotkeyState, TriggerCommand};
use voxmim::input::inserter::{needs_space_before, send_backspace, send_ctrl_v, KeyEvent, TextInserter, VK_BACK};
use voxmim::input::simulation::InputSimulation;

#[test]
fn hold_mode_press_and_release() {
    let mut k = HotkeyState::new();
    assert_eq!(k.on_key(true, false), None);
    assert_eq!(k.on_key(true, true), Some(TriggerCommand::StartRecording));
    assert_eq!(k.on_key(true, true), None);
    assert_eq!(k.on_key(false, false), Some(TriggerCommand::StopRecording));
    assert_eq!(k.on_key(false, true), None);
}

#[test]
fn tap_mode_press_each_time() {
    let mut k = HotkeyState::new();
    set_vad_enabled(&mut k, true);
    assert_eq!(k.on_key(true, true), Some(TriggerCommand::StartRecording));
    assert_eq!(k.on_key(true, true), None);
    assert_eq!(k.on_key(false, true), None);
    assert_eq!(k.on_key(true, true), Some(TriggerCommand::StartRecording));
    reset_recording_state(&mut k);
    assert!(!k.key_lock && k.vad_enabled);
    assert_eq!(k.on_key(true, true), Some(TriggerCommand::StartRecording));
}

#[test]
fn reset_forgets_a_held_key() {
    let mut k = HotkeyState::new();
    k.on_key(true, true);
    reset_recording_state(&mut k);
    assert_eq!(k.on_key(false, true), None);
}

#[test]
fn mouse_button_starts_and_stops_once() {
    let mut pressed = false;
    assert_eq!(on_mouse_button(&mut pressed, true), Some(TriggerCommand::StartRecording));
    assert_eq!(on_mouse_button(&mut pressed, true), None);
    assert_eq!(on_mouse_button(&mut pressed, false), Some(TriggerCommand::StopRecording));
    assert_eq!(on_mouse_button(&mut pressed, false), None);
}

#[test]
fn paste_and_backspace_strokes() {
    assert_eq!(
        send_ctrl_v(),
        vec![KeyEvent::Down(0x11), KeyEvent::Down(0x56), KeyEvent::Up(0x56), KeyEvent::Up(0x11)]
    );
    assert_eq!(send_backspace(0), vec![]);
    assert_eq!(
        send_backspace(2),
        vec![KeyEvent::Down(VK_BACK), KeyEvent::Up(VK_BACK), KeyEvent::Down(VK_BACK), KeyEvent::Up(VK_BACK)]
    );
}

#[test]
fn space_before_pasted_text() {
    assert!(!needs_space_before(0));
    assert!(!needs_space_before(' ' as u16));
    assert!(!needs_space_before('\t' as u16));
    assert!(needs_space_before('а' as u16));
    let ins = TextInserter::new();
    assert_eq!(ins.prepared_text("мир", 'т' as u16), " мир");
    assert_eq!(ins.prepared_text("мир", ' ' as u16), "мир");
    assert_eq!(ins.prepared_text("мир", 0), "мир");
}

#[test]
fn simulation_reports() {
    let sim = InputSimulation::new();
    assert_eq!(sim.key_click("enter"), "Нажатие клавиши: enter");
    assert_eq!(sim.type_text("привет"), "Ввод текста: привет");
    assert_eq!(sim.key_sequence(&["ctrl", "c"]), "Последовательность клавиш: [\"ctrl\", \"c\"]");
}
