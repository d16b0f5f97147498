use voxmim::commands::executor::{CommandAction, CommandExecutor, RawCommand, RawTriggers};
use voxmim::config::TextFixConfig;
use voxmim::session::{heard_wake_word, AppState, ResultOutcome, Session, StartOutcome, WakeListener, WakeStep};
use voxmim::text::rules::TextRules;
use voxmim::text::user_dict::UserDict;

fn cfg() -> TextFixConfig {
    TextFixConfig {
        fix_hallucinations: true,
        fix_user_dict: true,
        fix_repetitions: true,
        fix_punctuation: true,
        trailing_space: false,
    }
}

fn executor() -> CommandExecutor {
    let mut ex = CommandExecutor::new();
    let list = vec![(
        "enter".to_string(),
        RawCommand {
            triggers: Some(RawTriggers { common: Some(vec!["ввод".to_string()]), ru: None, en: None }),
            cmd_type: "hotkey".to_string(),
            value: Some("enter".to_string()),
        },
    )];
    ex.set_commands(&list);
    ex
}

fn result(s: &mut Session, text: &str, math: bool) -> ResultOutcome {
    let rules = TextRules::new().unwrap();
    let dict = UserDict::new();
    s.on_result(text, &cfg(), &dict, &rules, &executor(), 3, math)
}

#[test]
fn hold_mode_start_stop_cycle() {
    let mut s = Session::new();
    assert_eq!(s.state(), AppState::Idle);
    assert_eq!(s.on_start(false), StartOutcome::Started);
    assert_eq!(s.state(), AppState::Recording);
    assert_eq!(s.on_start(false), StartOutcome::Ignored);
    assert_eq!(s.state(), AppState::Recording);
    assert!(s.on_stop());
    assert_eq!(s.state(), AppState::Processing);
    assert!(s.finish_capture(16000));
    assert_eq!(s.state(), AppState::Processing);
    assert_eq!(s.on_start(false), StartOutcome::Ignored);
    assert!(!s.on_stop());
}

#[test]
fn tap_mode_second_press_stops() {
    let mut s = Session::new();
    assert_eq!(s.on_start(true), StartOutcome::Started);
    assert_eq!(s.on_start(true), StartOutcome::ForceStopped);
    assert_eq!(s.state(), AppState::Processing);
}

#[test]
fn short_capture_returns_to_idle() {
    let mut s = Session::new();
    s.on_start(false);
    s.on_stop();
    assert!(!s.finish_capture(15999));
    assert_eq!(s.state(), AppState::Idle);
}

#[test]
fn result_while_recording_is_ignored() {
    let mut s = Session::new();
    s.on_start(false);
    assert!(matches!(result(&mut s, "привет", false), ResultOutcome::Ignored));
    assert_eq!(s.state(), AppState::Recording);
}

#[test]
fn blank_result_is_empty_and_idle() {
    let mut s = Session::new();
    s.on_start(false);
    s.on_stop();
    assert!(matches!(result(&mut s, "   ", false), ResultOutcome::Empty));
    assert_eq!(s.state(), AppState::Idle);
}

#[test]
fn result_is_fixed_and_typed() {
    let mut s = Session::new();
    assert!(matches!(result(&mut s, "  привет мир ", false), ResultOutcome::Insert(t) if t == "Привет мир."));
    assert_eq!(s.state(), AppState::Idle);
}

#[test]
fn command_phrase_runs_the_command() {
    let mut s = Session::new();
    assert!(matches!(result(&mut s, "ввод пожалуйста", false), ResultOutcome::Execute(CommandAction::Hotkey(v)) if v == "enter"));
    // The fixed phrase gets a period, so a bare trigger no longer matches exactly.
    assert!(matches!(result(&mut s, "ввод", false), ResultOutcome::Insert(t) if t == "Ввод."));
}

#[test]
fn math_mode_converts_when_it_changes_the_text() {
    let mut s = Session::new();
    assert!(matches!(result(&mut s, "два плюс три", true), ResultOutcome::Insert(t) if t == "Два + 3."));
    assert!(matches!(result(&mut s, "привет", true), ResultOutcome::Insert(t) if t == "Привет."));
    assert!(matches!(result(&mut s, "два плюс три", false), ResultOutcome::Insert(t) if t == "Два плюс три."));
}

#[test]
fn wake_words_are_found_case_insensitively() {
    let words = vec!["слушай".to_string(), "бро запиши".to_string()];
    assert!(heard_wake_word("Эй, СЛУШАЙ меня", &words));
    assert!(heard_wake_word("бро запиши это", &words));
    assert!(!heard_wake_word("бро, запиши", &words));
    assert!(!heard_wake_word("что угодно", &Vec::new()));
}

#[test]
fn wake_listener_collects_a_command() {
    let mut w = WakeListener::new();
    assert_eq!(w.on_block(8000, true, true), WakeStep::Skip);
    assert_eq!(w.on_block(8000, false, false), WakeStep::Detect);
    w.on_detection(false, 8000);
    assert!(!w.awaiting);
    w.on_detection(true, 8000);
    assert!(w.awaiting);
    assert_eq!(w.on_block(8000, false, false), WakeStep::Collect);
    assert_eq!(w.command_len, 16000);
    assert_eq!(w.on_block(8000, true, true), WakeStep::Finish(true));
    assert!(!w.awaiting);
    assert_eq!(w.command_len, 0);
}

#[test]
fn wake_listener_drops_a_short_command() {
    let mut w = WakeListener::new();
    w.on_detection(true, 4000);
    assert_eq!(w.on_block(4000, true, true), WakeStep::Finish(false));
}
