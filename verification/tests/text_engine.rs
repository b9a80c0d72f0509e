use launchpad::renderer::text_engine::macos_fallback_locale;

#[test]
fn macos_locale_uses_region_appropriate_han_fallback() {
    assert_eq!(macos_fallback_locale("ja-JP"), "ja");
    assert_eq!(macos_fallback_locale("ja_JP"), "ja");
    assert_eq!(macos_fallback_locale("ko-KR"), "ko");
    assert_eq!(macos_fallback_locale("zh-Hant-TW"), "zh-TW");
    assert_eq!(macos_fallback_locale("zh-Hant-HK"), "zh-HK");
    assert_eq!(macos_fallback_locale("zh-Hans-CN"), "zh-CN");
}

#[test]
fn fallback_locale_other_languages_are_normalized() {
    assert_eq!(macos_fallback_locale("en_US"), "en-US");
    assert_eq!(macos_fallback_locale("fr"), "fr");
    assert_eq!(macos_fallback_locale(""), "");
    assert_eq!(macos_fallback_locale("JA"), "ja");
    assert_eq!(macos_fallback_locale("Zh_hk"), "zh-HK");
    assert_eq!(macos_fallback_locale("zh"), "zh-CN");
    assert_eq!(macos_fallback_locale("zh-tw-HK"), "zh-TW");
    assert_eq!(macos_fallback_locale("jav-ID"), "jav-ID");
}
