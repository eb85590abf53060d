use cylune::locale::{is_supported_locale, startup_locale};

#[test]
fn the_saved_locale_is_kept_when_supported() {
    assert_eq!(startup_locale(Some("en")), "en");
    assert_eq!(startup_locale(Some("zh-TW")), "zh-TW");
    assert_eq!(startup_locale(Some("fr")), "zh-CN");
    assert_eq!(startup_locale(Some("")), "zh-CN");
    assert_eq!(startup_locale(None), "zh-CN");
}

#[test]
fn only_three_locales_are_supported() {
    assert!(is_supported_locale("zh-CN"));
    assert!(!is_supported_locale("EN"));
    assert!(!is_supported_locale("zh"));
}
