//! Launcher settings and the labels the settings panel shows for them.

use vstd::prelude::*;

verus! {

/// How the launcher orders its apps.
#[derive(Debug, Clone, Copy, PartialEq, Eq, Structural)]
pub enum SortOrder {
    Name,
    Manual,
    Recent,
    Frequent,
}

impl SortOrder {
    pub const ALL: [SortOrder; 4] = [
        SortOrder::Name,
        SortOrder::Manual,
        SortOrder::Recent,
        SortOrder::Frequent,
    ];

    pub open spec fn spec_label(self) -> Seq<char> {
        match self {
            SortOrder::Name => "名前順"@,
            SortOrder::Manual => "手動"@,
            SortOrder::Recent => "最近使用"@,
            SortOrder::Frequent => "よく使用"@,
        }
    }

    /// Label shown in the settings panel.
    pub fn label(self) -> (r: &'static str)
        ensures
            r@ == self.spec_label(),
    {
        match self {
            SortOrder::Name => "名前順",
            SortOrder::Manual => "手動",
            SortOrder::Recent => "最近使用",
            SortOrder::Frequent => "よく使用",
        }
    }
}

/// Persisted launcher settings.
#[derive(Debug, Clone, PartialEq, Eq, Structural)]
pub struct Settings {
    pub sort_order: SortOrder,
    pub frequent_apps_enabled: bool,
    pub search_includes_hidden: bool,
}

impl Default for Settings {
    /// Sorted by name, frequent apps off, hidden apps not searched.
    fn default() -> (r: Self)
        ensures
            r.sort_order == SortOrder::Name,
            !r.frequent_apps_enabled,
            !r.search_includes_hidden,
    {
        Self {
            sort_order: SortOrder::Name,
            frequent_apps_enabled: false,
            search_includes_hidden: false,
        }
    }
}

/// Sections of the settings panel.
#[derive(Debug, Clone, Copy, PartialEq, Eq, Structural)]
pub enum SettingsCategory {
    Apps,
    Search,
    System,
    About,
}

impl SettingsCategory {
    pub const ALL: [SettingsCategory; 4] = [
        SettingsCategory::Apps,
        SettingsCategory::Search,
        SettingsCategory::System,
        SettingsCategory::About,
    ];

    pub open spec fn spec_label(self) -> Seq<char> {
        match self {
            SettingsCategory::Apps => "アプリ"@,
            SettingsCategory::Search => "表示と検索"@,
            SettingsCategory::System => "システム"@,
            SettingsCategory::About => "このアプリについて"@,
        }
    }

    /// Section title shown in the settings panel.
    pub fn label(self) -> (r: &'static str)
        ensures
            r@ == self.spec_label(),
    {
        match self {
            SettingsCategory::Apps => "アプリ",
            SettingsCategory::Search => "表示と検索",
            SettingsCategory::System => "システム",
            SettingsCategory::About => "このアプリについて",
        }
    }
}

} // verus!
