use nether_earth::command::CommandQueue;
use nether_earth::localization::{Language, Localization};

#[test]
fn commands_come_out_in_order() {
    let mut q: CommandQueue<u32> = CommandQueue::new();
    assert_eq!(q.advance(), None);
    q.push(1);
    q.push(2);
    q.push_front(0);
    assert_eq!(q.advance(), Some(0));
    assert_eq!(q.current, Some(0));
    assert_eq!(q.advance(), Some(1));
    assert_eq!(q.advance(), Some(2));
    assert_eq!(q.advance(), None);
    assert_eq!(q.current, None);
}

#[test]
fn default_queue_is_empty() {
    let q: CommandQueue<String> = CommandQueue::default();
    assert!(q.current.is_none());
    assert!(q.queue.is_empty());
}

#[test]
fn languages() {
    assert_eq!(Language::default(), Language::Russian);
    assert_eq!(Language::Russian.file_name(), "assets/locales/ru.ron");
    assert_eq!(Language::English.file_name(), "assets/locales/en.ron");
    assert_eq!(Language::Russian.label(), "RU");
    assert_eq!(Language::English.label(), "EN");
}

#[test]
fn texts_by_key_fall_back_to_the_key() {
    let entries = vec![
        ("editor.title".to_string(), "Map editor".to_string()),
        ("editor.btn.save".to_string(), "Save".to_string()),
        ("editor.title".to_string(), "Editor".to_string()),
    ];
    let loc = Localization::from_entries(Language::English, entries);
    assert_eq!(loc.language, Language::English);
    assert_eq!(loc.t("editor.title"), "Editor");
    assert_eq!(loc.t("editor.btn.save"), "Save");
    assert_eq!(loc.t("missing.key"), "missing.key");
}

#[test]
fn switching_language_reloads_texts() {
    let mut loc = Localization::from_entries(Language::Russian, vec![("a".to_string(), "А".to_string())]);
    assert!(loc.needs_change(Language::English));
    assert!(!loc.needs_change(Language::Russian));
    loc.set_language(Language::English, Some(r#"{"a": "A"}"#));
    assert_eq!(loc.language, Language::English);
    assert_eq!(loc.t("a"), "A");
}

#[test]
fn locale_file_text_is_parsed() {
    let loc = Localization::load(Language::English, Some(r#"{"menu.play": "Play", "menu.quit": "Quit"}"#));
    assert_eq!(loc.language, Language::English);
    assert_eq!(loc.t("menu.play"), "Play");
    assert_eq!(loc.t("menu.quit"), "Quit");
    assert_eq!(loc.t("menu.other"), "menu.other");
}

#[test]
fn malformed_or_missing_locale_file_gives_no_texts() {
    let broken = Localization::load(Language::Russian, Some("{\"menu.play\": "));
    assert_eq!(broken.t("menu.play"), "menu.play");
    let missing = Localization::load(Language::Russian, None);
    assert_eq!(missing.language, Language::Russian);
    assert_eq!(missing.t("menu.play"), "menu.play");
}
