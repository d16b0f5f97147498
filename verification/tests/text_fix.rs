use voxmim::text::aliases::Aliases;
use voxmim::config::TextFixConfig;
use voxmim::text::dictionary::Dictionary;
use voxmim::text::fix_text;
use voxmim::text::hallucinations::remove_hallucinations;
use voxmim::text::punctuation::fix_punctuation;
use voxmim::text::repetitions::fix_repetitions;
use voxmim::text::rules::TextRules;
use voxmim::text::space_fixer::fix_spaces;
use voxmim::text::user_dict::UserDict;

fn rules() -> TextRules {
    TextRules::new().unwrap()
}

fn rules_with_test_phrases() -> TextRules {
    let mut r = rules();
    let phrases: Vec<String> = vec![
        "субтитры создавал DimaTorzok".into(),
        "субтитры создавал".into(),
        "продолжение следует...".into(),
        "subscribe!".into(),
    ];
    r.set_custom_phrases(&phrases);
    r
}

fn cfg() -> TextFixConfig {
    TextFixConfig {
        fix_hallucinations: true,
        fix_user_dict: true,
        fix_repetitions: true,
        fix_punctuation: true,
        trailing_space: false,
    }
}

fn dict() -> UserDict {
    let mut d = UserDict::new();
    d.add_entry("фыва", "привет");
    d
}

#[test]
fn test_collapse_repetition() {
    assert_eq!(fix_repetitions("да-да-да"), "да");
}

#[test]
fn test_no_false_positive() {
    assert_eq!(fix_repetitions("нормальный текст"), "нормальный текст");
}

#[test]
fn test_double() {
    assert_eq!(fix_repetitions("ну-ну"), "ну");
}

#[test]
fn repetitions_keep_text_without_words() {
    assert_eq!(fix_repetitions("   "), "   ");
    assert_eq!(fix_repetitions(""), "");
}

#[test]
fn repetitions_normalise_spaces_and_drop_lone_dashes() {
    assert_eq!(fix_repetitions("a  b"), "a b");
    assert_eq!(fix_repetitions("a - b"), "a b");
    assert_eq!(fix_repetitions("- -"), " ");
    assert_eq!(fix_repetitions("да-нет"), "да-нет");
}

fn test_dict() -> Dictionary {
    Dictionary::from_words(&["произвольных", "варианты", "и", "их", "красный", "крас"])
}

#[test]
fn test_merge_broken_words() {
    let dict = test_dict();
    assert_eq!(fix_spaces("произволь ных варианты", &dict), "произвольных варианты");
}

#[test]
fn test_keep_valid_separate() {
    let dict = test_dict();
    assert_eq!(fix_spaces("и их варианты", &dict), "и их варианты");
}

#[test]
fn test_suffix_merge() {
    let dict = test_dict();
    assert_eq!(fix_spaces("крас ный", &dict), "красный");
}

#[test]
fn two_known_words_stay_apart_when_their_join_is_known() {
    let dict = Dictionary::from_words(&["кот", "он", "котон"]);
    assert_eq!(fix_spaces("кот он", &dict), "кот он");
    assert_eq!(fix_spaces("кот он кот", &dict), "кот он кот");
}

#[test]
fn consonant_before_vowel_is_no_reason_to_join() {
    let dict = Dictionary::from_words(&["нем", "есть", "неметь"]);
    assert_eq!(fix_spaces("нем есть", &dict), "нем есть");
}

#[test]
fn short_fragment_joins_only_into_a_known_word() {
    let dict = Dictionary::from_words(&["котик"]);
    assert_eq!(fix_spaces("кот ик", &dict), "котик");
    assert_eq!(fix_spaces("кот ок", &dict), "кот ок");
}

#[test]
fn common_ending_joins_even_when_unknown() {
    let dict = Dictionary::from_words(&["стол"]);
    assert_eq!(fix_spaces("Крас ный  стол", &dict), "Красный стол");
}

#[test]
fn dictionary_is_case_insensitive() {
    let dict = test_dict();
    assert!(dict.contains("Варианты"));
    assert!(!dict.contains("вариант"));
}

#[test]
fn test_remove_blank_audio() {
    assert_eq!(remove_hallucinations("привет [BLANK_AUDIO] мир", &rules()), "привет мир");
}

#[test]
fn test_remove_corrector() {
    assert_eq!(remove_hallucinations("текст Корректор A. Егорова", &rules()), "текст");
}

#[test]
fn test_remove_initial() {
    assert_eq!(remove_hallucinations("A. Семкин текст", &rules()), "текст");
}

#[test]
fn test_keep_normal() {
    assert_eq!(remove_hallucinations("привет мир", &rules()), "привет мир");
}

#[test]
fn test_remove_subtitles_end() {
    let r = rules_with_test_phrases();
    assert_eq!(
        remove_hallucinations("как устроен агент субтитры создавал DimaTorzok", &r),
        "как устроен агент"
    );
}

#[test]
fn test_keep_middle_not_removed() {
    assert_eq!(
        remove_hallucinations("я люблю смотреть фильмы с субтитрами", &rules()),
        "я люблю смотреть фильмы с субтитрами"
    );
}

#[test]
fn test_remove_multi_pass() {
    let r = rules_with_test_phrases();
    assert_eq!(remove_hallucinations("передай привет субтитры создавал", &r), "передай привет");
}

#[test]
fn configured_bracketed_token_removed_anywhere() {
    let mut r = rules();
    r.set_custom_phrases(&vec!["[LAUGH]".to_string()]);
    assert_eq!(remove_hallucinations("а [LAUGH] б", &r), "а б");
}

#[test]
fn test_add_period() {
    assert_eq!(fix_punctuation("привет мир", &rules()), "Привет мир.");
}

#[test]
fn test_keep_existing_period() {
    assert_eq!(fix_punctuation("Привет мир.", &rules()), "Привет мир.");
}

#[test]
fn test_capitalize() {
    assert_eq!(fix_punctuation("привет.", &rules()), "Привет.");
}

#[test]
fn test_space_before_comma() {
    assert_eq!(fix_punctuation("Привет , мир", &rules()), "Привет, мир.");
}

#[test]
fn punctuation_merges_commas_and_keeps_empty() {
    assert_eq!(fix_punctuation("да,, нет", &rules()), "Да, нет.");
    assert_eq!(fix_punctuation("   ", &rules()), "");
}

#[test]
fn test_fix_all_on() {
    let text = fix_text("  привет [BLANK_AUDIO] мир  ", &cfg(), &UserDict::new(), &rules());
    assert_eq!(text, "Привет мир.");
}

#[test]
fn test_empty_input_stays_empty() {
    assert_eq!(fix_text("", &cfg(), &UserDict::new(), &rules()), "");
    assert_eq!(fix_text("   ", &cfg(), &UserDict::new(), &rules()), "");
}

#[test]
fn test_user_dict_applied() {
    assert_eq!(fix_text("фыва мир", &cfg(), &dict(), &rules()), "Привет мир.");
}

#[test]
fn test_user_dict_disabled() {
    let mut c = cfg();
    c.fix_user_dict = false;
    assert_eq!(fix_text("фыва мир", &c, &dict(), &rules()), "Фыва мир.");
}

#[test]
fn test_trailing_space() {
    let mut c = cfg();
    c.trailing_space = true;
    assert_eq!(fix_text("привет", &c, &UserDict::new(), &rules()), "Привет. ");
    assert_eq!(fix_text("", &c, &UserDict::new(), &rules()), "");
}

#[test]
fn test_all_disabled_only_trims() {
    let c = TextFixConfig {
        fix_hallucinations: false,
        fix_user_dict: false,
        fix_repetitions: false,
        fix_punctuation: false,
        trailing_space: false,
    };
    assert_eq!(fix_text("  да-да-да  ", &c, &dict(), &rules()), "да-да-да");
}

#[test]
fn test_repetitions_fixed_by_default() {
    assert_eq!(fix_text("да-да-да", &cfg(), &UserDict::new(), &rules()), "Да.");
}

#[test]
fn user_dict_whole_words_only() {
    let d = dict();
    assert_eq!(d.apply("фыва, мир"), "привет, мир");
    assert_eq!(d.apply("фывакот"), "фывакот");
    assert_eq!(d.apply("ФЫВА"), "привет");
}

#[test]
fn user_dict_longest_key_first_and_whitespace_flexible() {
    let mut d = UserDict::new();
    d.add_entry("добрый", "злой");
    d.add_entry("добрый день", "здравствуйте");
    assert_eq!(d.apply("добрый   день, добрый вечер"), "здравствуйте, злой вечер");
}

#[test]
fn user_dict_blank_entries_ignored_and_values_trimmed() {
    let mut d = UserDict::new();
    d.add_entry("  ", "x");
    d.add_entry("a", "   ");
    assert_eq!(d.apply("a b"), "a b");
    d.add_entry(" Кот ", " пёс ");
    assert_eq!(d.apply("кот"), "пёс");
}

#[test]
fn user_dict_from_entries_lowercases_keys() {
    let d = UserDict::from_entries(&vec![("ПрИвЕт".to_string(), "Hello".to_string())]);
    assert_eq!(d.apply("привет мир"), "Hello мир");
}

#[test]
fn user_dict_from_json_document() {
    let d = UserDict::from_json(r#"{"Фыва": "привет", "два слова": "одно"}"#);
    assert_eq!(d.apply("фыва мир"), "привет мир");
    assert_eq!(d.apply("Два   слова"), "одно");
    let mut keys: Vec<String> = d.entries().into_iter().map(|(k, _)| k).collect();
    keys.sort();
    assert_eq!(keys, vec!["два слова".to_string(), "фыва".to_string()]);
}

#[test]
fn user_dict_from_broken_json_is_empty() {
    assert!(UserDict::from_json("{").entries().is_empty());
    assert!(UserDict::from_json(r#"{"a": ["b"]}"#).entries().is_empty());
    assert_eq!(UserDict::from_json("{").apply("фыва"), "фыва");
}

#[test]
fn aliases_load_flat_json_only() {
    let mut a = Aliases::new();
    assert!(a.load_json(r#"{"Копирывать": "Копировать"}"#));
    assert!(!a.load_json(r#"{"ru": {"а": "б"}}"#));
    assert!(!a.load_json("[]"));
    assert!(a.load_json("{}"));
}
