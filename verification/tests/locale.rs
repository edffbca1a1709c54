use deb_installer::i18n::{
    detect_locale, detect_locale_inner, init_locale, locale, locale_candidates,
    match_available_locale, normalize_locale, LocaleEnv,
};

fn env(lc_all: Option<&str>, lc_messages: Option<&str>, language: Option<&str>, lang: Option<&str>) -> LocaleEnv {
    LocaleEnv {
        lc_all: lc_all.map(|s| s.to_string()),
        lc_messages: lc_messages.map(|s| s.to_string()),
        language: language.map(|s| s.to_string()),
        lang: lang.map(|s| s.to_string()),
    }
}

#[test]
fn normalization() {
    assert_eq!(normalize_locale("zh_CN.UTF-8"), "zh-cn");
    assert_eq!(normalize_locale("de_DE@euro"), "de-de");
    assert_eq!(normalize_locale("sr_RS.UTF-8@latin"), "sr-rs");
    assert_eq!(normalize_locale("EN"), "en");
    assert_eq!(normalize_locale(""), "");
}

#[test]
fn exact_match_then_language_match() {
    let available = ["en", "zh-CN", "zh-TW"];
    assert_eq!(match_available_locale("zh_TW.UTF-8", &available), Some("zh-TW"));
    assert_eq!(match_available_locale("zh_HK", &available), Some("zh-CN"));
    assert_eq!(match_available_locale("en_US.UTF-8", &available), Some("en"));
    assert_eq!(match_available_locale("fr_FR", &available), None);
    assert_eq!(match_available_locale("", &available), None);
    assert_eq!(match_available_locale(".UTF-8", &available), None);
    assert_eq!(match_available_locale("-x", &available), None);
}

#[test]
fn candidates_in_order_of_precedence() {
    let e = env(Some("C"), None, Some("fr:de::"), Some("en_US.UTF-8"));
    assert_eq!(locale_candidates(&e), vec!["C", "fr", "de", "", "", "en_US.UTF-8"]);
    assert!(locale_candidates(&env(None, None, None, None)).is_empty());
}

#[test]
fn detection_falls_back_to_english_then_first() {
    let cands = vec!["fr_FR".to_string(), "C".to_string()];
    assert_eq!(detect_locale_inner(&cands, &["de", "en"]), "en");
    assert_eq!(detect_locale_inner(&cands, &["de", "ja"]), "de");
    assert_eq!(detect_locale_inner(&cands, &[]), "en");
    assert_eq!(detect_locale_inner(&vec!["ja_JP".to_string()], &["en", "ja"]), "ja");
}

#[test]
fn locale_from_environment() {
    let e = env(None, Some("zh_CN.UTF-8"), None, Some("en_US.UTF-8"));
    assert_eq!(locale(&e, &["en", "zh-CN"]), "zh-CN");
    assert_eq!(detect_locale(&e, &["en", "zh-CN"]), "zh-CN");
    let e2 = env(None, None, Some("pt_BR:fr"), None);
    assert_eq!(detect_locale(&e2, &["en", "fr"]), "fr");
}

#[test]
fn init_sets_the_translation_locale() {
    let e = env(None, None, None, Some("zh_CN.UTF-8"));
    init_locale(&e, &["en", "zh-CN"]);
    assert_eq!(&*rust_i18n::locale(), "zh-CN");
}
