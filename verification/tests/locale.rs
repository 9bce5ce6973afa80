use manga2epub::{resolve_locale, Locale};

#[test]
fn selects_the_display_locale_in_priority_order() {
    assert_eq!(resolve_locale(Some(Locale::En), Some("ja_JP")), Locale::En);
    assert_eq!(resolve_locale(None, Some("ja_JP.UTF-8")), Locale::Ja);
    assert_eq!(resolve_locale(None, Some("en-US")), Locale::En);
    assert_eq!(resolve_locale(None, Some("fr-FR")), Locale::En);
    assert_eq!(resolve_locale(None, None), Locale::En);
}

#[test]
fn recognizes_system_locales_whatever_their_case() {
    assert_eq!(Locale::from_system_locale("JA"), Some(Locale::Ja));
    assert_eq!(Locale::from_system_locale("En_GB@euro"), Some(Locale::En));
    assert_eq!(Locale::from_system_locale("ja.UTF-8"), Some(Locale::Ja));
    assert_eq!(Locale::from_system_locale("jav"), None);
    assert_eq!(Locale::from_system_locale(""), None);
    assert_eq!(Locale::from_system_locale("-ja"), None);
}

#[test]
fn names_the_locales_for_the_catalogues() {
    assert_eq!(Locale::En.as_str(), "en");
    assert_eq!(Locale::Ja.as_str(), "ja");
}

#[test]
fn an_explicit_locale_wins_over_an_unsupported_system_locale() {
    assert_eq!(resolve_locale(Some(Locale::Ja), Some("de_DE")), Locale::Ja);
}
