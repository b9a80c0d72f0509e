use launchpad::settings::{Settings, SettingsCategory, SortOrder};

#[test]
fn defaults_are_v1_settings() {
    let s = Settings::default();
    assert_eq!(s.sort_order, SortOrder::Name);
    assert!(!s.frequent_apps_enabled);
    assert!(!s.search_includes_hidden);
}

#[test]
fn labels_cover_every_variant() {
    let sort: Vec<&str> = SortOrder::ALL.iter().map(|o| o.label()).collect();
    assert_eq!(sort, ["名前順", "手動", "最近使用", "よく使用"]);
    let cats: Vec<&str> = SettingsCategory::ALL.iter().map(|c| c.label()).collect();
    assert_eq!(cats, ["アプリ", "表示と検索", "システム", "このアプリについて"]);
}
