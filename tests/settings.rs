use session_switcher::config::{Config, SortOrder};
use std::collections::BTreeMap;

fn settings(pairs: &[(&str, &str)]) -> BTreeMap<String, String> {
    pairs
        .iter()
        .map(|(k, v)| (k.to_string(), v.to_string()))
        .collect()
}

#[test]
fn empty_settings_give_defaults() {
    let c = Config::from_zellij_config(&BTreeMap::new());
    assert_eq!(c.default_layout, None);
    assert_eq!(c.session_separator, ".");
    assert!(!c.show_resurrectable_sessions);
    assert!(c.base_paths.is_empty());
    assert!(!c.show_all_sessions);
    assert_eq!(c.sort_order, SortOrder::Mru);
    let d = Config::default();
    assert_eq!(d.session_separator, ".");
    assert_eq!(d.sort_order, SortOrder::Mru);
}

#[test]
fn settings_are_read() {
    let c = Config::from_zellij_config(&settings(&[
        ("default_layout", "compact"),
        ("session_separator", "-"),
        ("show_resurrectable_sessions", "true"),
        ("base_paths", " /home/me | |/work/ |"),
        ("show_all_sessions", "TRUE"),
        ("sort_order", "Alphabetical"),
    ]));
    assert_eq!(c.default_layout.as_deref(), Some("compact"));
    assert_eq!(c.session_separator, "-");
    assert!(c.show_resurrectable_sessions);
    assert_eq!(c.base_paths, vec!["/home/me".to_string(), "/work/".to_string()]);
    assert!(!c.show_all_sessions);
    assert_eq!(c.sort_order, SortOrder::Alphabetical);
}

#[test]
fn sort_order_parsing() {
    assert_eq!(SortOrder::from_config_str("alphabetical"), SortOrder::Alphabetical);
    assert_eq!(SortOrder::from_config_str("ALPHABETICAL"), SortOrder::Alphabetical);
    assert_eq!(SortOrder::from_config_str("mru"), SortOrder::Mru);
    assert_eq!(SortOrder::from_config_str("other"), SortOrder::Mru);
    assert_eq!(SortOrder::default(), SortOrder::Mru);
}

#[test]
fn base_paths_trim_unicode_white_space() {
    let c = Config::from_zellij_config(&settings(&[("base_paths", "\u{3000}/x\u{a0}|\t\u{85}|")]));
    assert_eq!(c.base_paths, vec!["/x".to_string()]);
}
