use sleeve::i18n::{detect_file_name, display_language, replace_text, tf, tr, Language, Localization};

#[test]
fn parses_supported_language_preferences() {
    assert_eq!(Language::from_str("zh-CN"), Language::ZhCN);
    assert_eq!(Language::from_str("en"), Language::En);
    assert_eq!(Language::from_str("other"), Language::System);
}

#[test]
fn formats_named_translation_arguments() {
    assert_eq!(tf(&Localization::default(), "missing {name}", &[("name", "value")]), "missing value");
}

#[test]
fn translations_come_from_the_loaded_file() {
    let localization = Localization::init(
        Language::En,
        Some(r#"{"app.greeting": "Hello, {who}!", "app.title": "Sleeve"}"#.to_string()),
    );
    assert_eq!(tr(&localization, "app.title"), "Sleeve");
    assert_eq!(tr(&localization, "app.unknown"), "app.unknown");
    assert_eq!(tf(&localization, "app.greeting", &[("who", "you")]), "Hello, you!");
}

#[test]
fn unreadable_translations_leave_keys_untranslated() {
    let localization = Localization::init(Language::ZhCN, Some("not json".to_string()));
    assert_eq!(tr(&localization, "app.title"), "app.title");
    let none = Localization::init(Language::En, None);
    assert_eq!(tr(&none, "app.title"), "app.title");
}

#[test]
fn the_first_set_locale_variable_decides_the_language_file() {
    let chinese = [Some("zh_CN.UTF-8".to_string()), Some("en_US".to_string()), None];
    let english = [None, Some("en_US.UTF-8".to_string()), Some("zh_CN".to_string())];
    assert_eq!(detect_file_name(&chinese), "zh-CN.json");
    assert_eq!(detect_file_name(&english), "en.json");
    assert_eq!(detect_file_name(&[None, None, None]), "en.json");
}

#[test]
fn any_other_locale_in_the_first_set_variable_means_english() {
    let french_first = [Some("fr_FR.UTF-8".to_string()), None, Some("zh_CN.UTF-8".to_string())];
    assert_eq!(detect_file_name(&french_first), "en.json");
    let empty_first = [Some(String::new()), None, Some("zh_CN.UTF-8".to_string())];
    assert_eq!(detect_file_name(&empty_first), "zh-CN.json");
    let capital = [None, Some("ZH_hans".to_string()), None];
    assert_eq!(detect_file_name(&capital), "zh-CN.json");
}

#[test]
fn language_round_trips_through_its_preference_string() {
    for language in [Language::System, Language::ZhCN, Language::En] {
        assert_eq!(Language::from_str(language.as_str()), language);
    }
    let localization = Localization::init(Language::System, None);
    assert_eq!(display_language(&localization, &[Some("zh_Hans".to_string())]), Language::ZhCN);
}

#[test]
fn replacing_text_replaces_every_occurrence() {
    assert_eq!(replace_text("a {x} b {x}", "{x}", "1"), "a 1 b 1");
    assert_eq!(replace_text("aaa", "aa", "b"), "ba");
}
