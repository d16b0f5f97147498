use voxmim::commands::executor::{parse_action, CommandAction, CommandExecutor, RawCommand, RawTriggers};
use voxmim::commands::math::convert_math;

#[test]
fn test_simple_expression() {
    let result = convert_math("два плюс три");
    assert_eq!(result, "2 + 3");
}

#[test]
fn test_complex() {
    let result = convert_math("два плюс три умножить на четыре");
    assert_eq!(result, "2 + 3 * на 4");
}

#[test]
fn math_all_numerals_and_operators() {
    assert_eq!(
        convert_math("ноль один два три четыре пять шесть семь восемь девять десять"),
        "0 1 2 3 4 5 6 7 8 9 10"
    );
    assert_eq!(convert_math("пять минус два равно три"), "5 - 2 = 3");
    assert_eq!(convert_math("шесть разделить два"), "6 / 2");
    assert_eq!(convert_math("просто текст"), "просто текст");
}

fn command(common: &[&str], cmd_type: &str, value: Option<&str>) -> RawCommand {
    RawCommand {
        triggers: Some(RawTriggers {
            common: Some(common.iter().map(|s| s.to_string()).collect()),
            ru: None,
            en: None,
        }),
        cmd_type: cmd_type.to_string(),
        value: value.map(|s| s.to_string()),
    }
}

fn executor() -> CommandExecutor {
    let mut ex = CommandExecutor::new();
    let list = vec![
        ("_comment".to_string(), command(&["скрытая"], "paste", Some("x"))),
        ("copy".to_string(), command(&["Копировать"], "hotkey", Some("ctrl+c"))),
        ("click".to_string(), command(&["клик"], "mouse_click", None)),
        ("math".to_string(), command(&["математика вкл"], "toggle_math_mode", Some("on"))),
    ];
    ex.set_commands(&list);
    ex.set_aliases(&vec![("Копирывать".to_string(), "КОПИРОВАТЬ".to_string())]);
    ex
}

#[test]
fn executor_exact_prefix_and_suffix_matches() {
    let ex = executor();
    assert!(matches!(ex.try_execute("копировать", 3), Some(CommandAction::Hotkey(v)) if v == "ctrl+c"));
    assert!(matches!(ex.try_execute("клик сейчас", 3), Some(CommandAction::MouseClick(v)) if v == "left"));
    assert!(matches!(ex.try_execute("сделай клик", 3), Some(CommandAction::MouseClick(_))));
    assert!(ex.try_execute("кликать", 3).is_none());
}

#[test]
fn executor_skips_underscore_names() {
    let ex = executor();
    assert!(ex.try_execute("скрытая", 3).is_none());
}

#[test]
fn executor_long_phrases_are_dictation() {
    let ex = executor();
    assert!(ex.try_execute("сделай вот клик", 3).is_none());
    assert!(ex.try_execute("сделай вот клик", 4).is_some());
    assert!(ex.try_execute("сделай вот клик", 1).is_none());
    assert!(ex.try_execute("клик вот", 2).is_none());
    assert!(ex.try_execute("клик вот", 3).is_some());
    assert!(ex.try_execute("копировать", 1).is_none());
    assert!(ex.try_execute("копировать", 2).is_some());
    assert!(ex.try_execute("копировать", 0).is_none());
}

#[test]
fn executor_aliases_resolve_before_matching() {
    let ex = executor();
    assert_eq!(ex.resolve_alias("КОПИРЫВАТЬ"), "копировать");
    assert_eq!(ex.resolve_alias("Привет"), "привет");
    assert!(matches!(ex.try_execute("Копирывать", 3), Some(CommandAction::Hotkey(_))));
}

#[test]
fn executor_toggle_math_mode_value() {
    let ex = executor();
    assert!(matches!(ex.try_execute("математика вкл", 3), Some(CommandAction::ToggleMathMode(true))));
}

#[test]
fn parse_action_defaults_and_unknown() {
    assert!(matches!(parse_action("n", "mouse_move", None), CommandAction::MouseMove(v) if v == "right"));
    assert!(matches!(parse_action("n", "mouse_scroll", None), CommandAction::MouseScroll(v) if v == "down"));
    assert!(matches!(parse_action("n", "mouse_monitor", None), CommandAction::MouseMonitor(v) if v == "1"));
    assert!(matches!(parse_action("n", "paste", Some("текст")), CommandAction::Paste(v) if v == "текст"));
    assert!(matches!(parse_action("n", "toggle_math_mode", Some("off")), CommandAction::ToggleMathMode(false)));
    assert!(matches!(parse_action("n", "no_such_type", None), CommandAction::Nothing));
}

#[test]
fn duplicate_keeps_the_action() {
    let a = CommandAction::Grid("3".to_string());
    assert!(matches!(a.duplicate(), CommandAction::Grid(v) if v == "3"));
    assert!(matches!(CommandAction::FocusSave.duplicate(), CommandAction::FocusSave));
}

#[test]
fn aliases_load_from_tables_by_language() {
    let mut ex = CommandExecutor::new();
    ex.set_aliases_json(r#"{"ru": {"Копирывать": "Копировать"}, "en": {"Kopy": "COPY"}}"#);
    assert_eq!(ex.resolve_alias("копирывать"), "копировать");
    assert_eq!(ex.resolve_alias("KOPY"), "copy");
    assert_eq!(ex.resolve_alias("другое"), "другое");
}

#[test]
fn aliases_unchanged_by_a_document_that_is_not_tables() {
    let mut ex = CommandExecutor::new();
    ex.set_aliases_json(r#"{"ru": {"а": "б"}}"#);
    ex.set_aliases_json(r#"{"а": "в"}"#);
    ex.set_aliases_json("not json");
    assert_eq!(ex.resolve_alias("А"), "б");
    ex.set_aliases_json(r#"{}"#);
    assert_eq!(ex.resolve_alias("А"), "а");
}
