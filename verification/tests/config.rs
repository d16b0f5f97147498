use voxmim::config::{
    default_engine_mode, default_text_fix, default_trigger, default_true, default_whisper_timeout, migrate_engine_mode,
    TriggerButton,
};

#[test]
fn config_defaults() {
    assert_eq!(default_whisper_timeout(), 10);
    assert!(default_true());
    assert_eq!(default_engine_mode(), "server");
    let t = default_trigger();
    assert_eq!(t.button, TriggerButton::Keyboard);
    assert_eq!(t.keyboard.as_deref(), Some("ctrl+insert"));
    let f = default_text_fix();
    assert!(f.fix_hallucinations && f.fix_user_dict && f.fix_repetitions && f.fix_punctuation && !f.trailing_space);
}

#[test]
fn engine_mode_migration() {
    assert_eq!(migrate_engine_mode("one-shot", Some(true)), "server");
    assert_eq!(migrate_engine_mode("one-shot", Some(false)), "one-shot");
    assert_eq!(migrate_engine_mode("one-shot", None), "one-shot");
    assert_eq!(migrate_engine_mode("server", Some(true)), "server");
    assert_eq!(migrate_engine_mode("custom", Some(true)), "custom");
}
