use voxmim::text::hallucinations::{default_phrases, remove_hallucinations};
use voxmim::text::lexical::{lex_le_chars, sort_by_lowercase};
use voxmim::text::phrase_file::{add_custom_phrase, default_phrase_file, load_custom_phrases, parse_phrase_file};
use voxmim::text::rules::TextRules;

fn std_sorted(mut v: Vec<String>) -> Vec<String> {
    v.sort_by(|a, b| a.to_lowercase().cmp(&b.to_lowercase()));
    v
}

#[test]
fn parse_headers_and_phrases() {
    let (h, p) = parse_phrase_file("# заголовок\r\n  фраза один \n\n#второй\nфраза два");
    assert_eq!(h, vec!["# заголовок".to_string(), "#второй".to_string()]);
    assert_eq!(p, vec!["фраза один".to_string(), "фраза два".to_string()]);
    let (h, p) = parse_phrase_file("");
    assert!(h.is_empty() && p.is_empty());
}

#[test]
fn default_file_is_sorted_like_std() {
    let defaults: Vec<String> = default_phrases().iter().map(|s| s.to_string()).collect();
    let header = "# Фразы, удаляемые из конца распознанного текста (каждая на новой строке)\n# Регистр не важен";
    let expected = format!("{}\n{}\n", header, std_sorted(defaults).join("\n"));
    assert_eq!(default_phrase_file(), expected);
}

#[test]
fn sort_is_stable_and_case_insensitive() {
    let items: Vec<Vec<char>> = ["b", "B", "a", "Ab", "ab", "é", "z"].iter().map(|s| s.chars().collect()).collect();
    let sorted: Vec<String> = sort_by_lowercase(&items).into_iter().map(|v| v.into_iter().collect()).collect();
    let expected = std_sorted(["b", "B", "a", "Ab", "ab", "é", "z"].iter().map(|s| s.to_string()).collect());
    assert_eq!(sorted, expected);
    assert_eq!(sorted, vec!["a", "Ab", "ab", "b", "B", "z", "é"]);
}

#[test]
fn lexical_order_by_code_point() {
    let c = |s: &str| s.chars().collect::<Vec<char>>();
    assert!(lex_le_chars(&c("abc"), &c("abd")));
    assert!(lex_le_chars(&c("ab"), &c("abc")));
    assert!(!lex_le_chars(&c("abc"), &c("ab")));
    assert!(lex_le_chars(&c(""), &c("")));
    assert!(lex_le_chars(&c("z"), &c("а")));
}

#[test]
fn add_phrase_to_existing_file() {
    let content = "# мои фразы\nспасибо за просмотр\nАбв\n";
    let out = add_custom_phrase(content, "  пока всем  ").unwrap();
    assert_eq!(out, "# мои фразы\nАбв\nпока всем\nспасибо за просмотр\n");
    let again = add_custom_phrase(&out, "пока всем").unwrap();
    assert_eq!(again, out);
    assert_eq!(add_custom_phrase(content, "   "), None);
}

#[test]
fn add_phrase_to_file_without_headers_adds_defaults() {
    let out = add_custom_phrase("Thank you.\n", "новая фраза").unwrap();
    let mut phrases: Vec<String> = vec!["Thank you.".to_string()];
    for d in default_phrases() {
        if !phrases.contains(&d.to_string()) {
            phrases.push(d.to_string());
        }
    }
    phrases.push("новая фраза".to_string());
    let mut expected = String::from(
        "# Фразы, удаляемые из конца распознанного текста (каждая на новой строке)\n# Регистр не важен\n",
    );
    for p in std_sorted(phrases) {
        expected.push_str(&p);
        expected.push('\n');
    }
    assert_eq!(out, expected);
}

#[test]
fn loading_phrases_installs_them() {
    let mut rules = TextRules::new().unwrap();
    assert!(!load_custom_phrases(&mut rules, "# только заголовок\n\n"));
    assert_eq!(remove_hallucinations("текст пока всем", &rules), "текст пока всем");
    assert!(load_custom_phrases(&mut rules, "# фразы\nпока всем\n[ШУМ]\n"));
    assert_eq!(remove_hallucinations("текст ПОКА ВСЕМ", &rules), "текст");
    assert_eq!(remove_hallucinations("а [ШУМ] б", &rules), "а б");
    assert!(!load_custom_phrases(&mut rules, ""));
    assert_eq!(remove_hallucinations("текст пока всем", &rules), "текст");
}
