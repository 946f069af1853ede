use edge_profile::config::{BrowserConfig, Config, ExtensionItem, PrivacyConfig, SearchConfig};
use edge_profile::policy::{
    build_entries, dword, resolve_extension, restore_on_startup_code, sz,
    tracking_prevention_code, PolicyEntry, RegValue, CHROME_UPDATE_URL, EDGE_UPDATE_URL,
};
use edge_profile::text::decimal_string;

fn empty_config() -> Config {
    Config { search: None, extensions: None, browser: None, privacy: None }
}

fn is_dword(e: &PolicyEntry, subkey: &str, name: &str, v: u32) -> bool {
    e.subkey == subkey && e.name == name && matches!(e.value, RegValue::Dword(x) if x == v)
}

fn is_sz(e: &PolicyEntry, subkey: &str, name: &str, v: &str) -> bool {
    e.subkey == subkey && e.name == name && matches!(&e.value, RegValue::Sz(x) if x == v)
}

fn item(key: &str, spec: Option<&str>) -> ExtensionItem {
    ExtensionItem { key: key.to_string(), spec: spec.map(|s| s.to_string()) }
}

#[test]
fn empty_config_builds_nothing() {
    assert!(build_entries(&empty_config()).is_empty());
}

#[test]
fn search_only_all_fields() {
    let mut cfg = empty_config();
    cfg.search = Some(SearchConfig {
        provider: Some("Kagi".to_string()),
        search_url: Some("https://kagi.com/search?q={searchTerms}".to_string()),
        suggest_url: Some("https://kagi.com/api/autosuggest?q={searchTerms}".to_string()),
    });
    let e = build_entries(&cfg);
    assert_eq!(e.len(), 4);
    assert!(is_dword(&e[0], "", "DefaultSearchProviderEnabled", 1));
    assert!(is_sz(&e[1], "", "DefaultSearchProviderName", "Kagi"));
    assert!(is_sz(&e[2], "", "DefaultSearchProviderSearchURL", "https://kagi.com/search?q={searchTerms}"));
    assert!(is_sz(
        &e[3],
        "",
        "DefaultSearchProviderSuggestURL",
        "https://kagi.com/api/autosuggest?q={searchTerms}"
    ));
}

#[test]
fn search_only_absent_fields_emit_nothing() {
    let mut cfg = empty_config();
    cfg.search = Some(SearchConfig { provider: None, search_url: Some("u".to_string()), suggest_url: None });
    let e = build_entries(&cfg);
    assert_eq!(e.len(), 2);
    assert!(is_dword(&e[0], "", "DefaultSearchProviderEnabled", 1));
    assert!(is_sz(&e[1], "", "DefaultSearchProviderSearchURL", "u"));

    cfg.search = Some(SearchConfig { provider: None, search_url: None, suggest_url: None });
    let e = build_entries(&cfg);
    assert_eq!(e.len(), 1);
    assert!(is_dword(&e[0], "", "DefaultSearchProviderEnabled", 1));
}

#[test]
fn extension_spec_resolution() {
    assert_eq!(resolve_extension("edge:ABC"), format!("ABC;{}", EDGE_UPDATE_URL));
    assert_eq!(resolve_extension("chrome:XYZ"), format!("XYZ;{}", CHROME_UPDATE_URL));
    assert_eq!(resolve_extension("QRS"), format!("QRS;{}", EDGE_UPDATE_URL));
    assert_eq!(
        resolve_extension("QRS"),
        "QRS;https://edge.microsoft.com/extensionwebstorebase/v1/crx"
    );
    assert_eq!(
        resolve_extension("chrome:XYZ"),
        "XYZ;https://clients2.google.com/service/update2/crx"
    );
}

#[test]
fn extension_prefix_only_gives_empty_id() {
    assert_eq!(resolve_extension("edge:"), format!(";{}", EDGE_UPDATE_URL));
    assert_eq!(resolve_extension(""), format!(";{}", EDGE_UPDATE_URL));
}

#[test]
fn extensions_renumbered_contiguously() {
    let mut cfg = empty_config();
    cfg.extensions = Some(vec![
        item("ublock", Some("edge:AAA")),
        item("broken", None),
        item("dark", Some("chrome:BBB")),
        item("table", None),
        item("other", None),
        item("bare", Some("CCC")),
    ]);
    let e = build_entries(&cfg);
    assert_eq!(e.len(), 3);
    assert!(is_sz(&e[0], "ExtensionInstallForcelist", "1", &format!("AAA;{}", EDGE_UPDATE_URL)));
    assert!(is_sz(&e[1], "ExtensionInstallForcelist", "2", &format!("BBB;{}", CHROME_UPDATE_URL)));
    assert!(is_sz(&e[2], "ExtensionInstallForcelist", "3", &format!("CCC;{}", EDGE_UPDATE_URL)));
}

#[test]
fn many_extensions_use_decimal_names() {
    let mut cfg = empty_config();
    let mut items = Vec::new();
    for i in 0..12 {
        items.push(item(&format!("k{i}"), Some(&format!("id{i}"))));
    }
    cfg.extensions = Some(items);
    let e = build_entries(&cfg);
    assert_eq!(e.len(), 12);
    assert_eq!(e[9].name, "10");
    assert_eq!(e[11].name, "12");
}

#[test]
fn start_mode_codes() {
    assert_eq!(restore_on_startup_code(&"new_tab".to_string()), 5);
    assert_eq!(restore_on_startup_code(&"previous_session".to_string()), 1);
    assert_eq!(restore_on_startup_code(&"urls".to_string()), 4);
    assert_eq!(restore_on_startup_code(&"bogus".to_string()), 5);
    assert_eq!(restore_on_startup_code(&"".to_string()), 5);
}

#[test]
fn tracking_level_codes() {
    assert_eq!(tracking_prevention_code(&"off".to_string()), 0);
    assert_eq!(tracking_prevention_code(&"basic".to_string()), 1);
    assert_eq!(tracking_prevention_code(&"balanced".to_string()), 2);
    assert_eq!(tracking_prevention_code(&"strict".to_string()), 3);
    assert_eq!(tracking_prevention_code(&"paranoid".to_string()), 2);
}

#[test]
fn browser_and_privacy_sections() {
    let mut cfg = empty_config();
    cfg.browser = Some(BrowserConfig {
        restore_on_startup: Some("previous_session".to_string()),
        show_home_button: Some(true),
        favorites_bar: None,
        hide_first_run: Some(false),
    });
    cfg.privacy = Some(PrivacyConfig {
        tracking_prevention: Some("unknown-level".to_string()),
        password_manager: Some(false),
        autofill_credit_card: None,
        autofill_address: Some(true),
    });
    let e = build_entries(&cfg);
    assert_eq!(e.len(), 6);
    assert!(is_dword(&e[0], "", "RestoreOnStartup", 1));
    assert!(is_dword(&e[1], "", "ShowHomeButton", 1));
    assert!(is_dword(&e[2], "", "HideFirstRunExperience", 0));
    assert!(is_dword(&e[3], "", "TrackingPrevention", 2));
    assert!(is_dword(&e[4], "", "PasswordManagerEnabled", 0));
    assert!(is_dword(&e[5], "", "AutofillAddressEnabled", 1));
}

#[test]
fn unknown_start_mode_in_config_defaults() {
    let mut cfg = empty_config();
    cfg.browser = Some(BrowserConfig {
        restore_on_startup: Some("sometimes".to_string()),
        show_home_button: None,
        favorites_bar: None,
        hide_first_run: None,
    });
    let e = build_entries(&cfg);
    assert_eq!(e.len(), 1);
    assert!(is_dword(&e[0], "", "RestoreOnStartup", 5));
}

#[test]
fn sections_in_order() {
    let mut cfg = empty_config();
    cfg.privacy = Some(PrivacyConfig {
        tracking_prevention: Some("strict".to_string()),
        password_manager: None,
        autofill_credit_card: None,
        autofill_address: None,
    });
    cfg.extensions = Some(vec![item("a", Some("edge:X"))]);
    cfg.search = Some(SearchConfig { provider: None, search_url: None, suggest_url: None });
    let e = build_entries(&cfg);
    assert_eq!(e.len(), 3);
    assert!(is_dword(&e[0], "", "DefaultSearchProviderEnabled", 1));
    assert!(is_sz(&e[1], "ExtensionInstallForcelist", "1", &format!("X;{}", EDGE_UPDATE_URL)));
    assert!(is_dword(&e[2], "", "TrackingPrevention", 3));
}

#[test]
fn render_entries() {
    assert_eq!(dword("", "ShowHomeButton", 1).render(), "ShowHomeButton = DWORD(1)");
    assert_eq!(dword("", "X", 4294967295).render(), "X = DWORD(4294967295)");
    assert_eq!(
        sz("ExtensionInstallForcelist", "2", "abc;u").render(),
        "ExtensionInstallForcelist\\2 = \"abc;u\""
    );
    assert_eq!(sz("", "DefaultSearchProviderName", "Kagi").render(), "DefaultSearchProviderName = \"Kagi\"");
}

#[test]
fn decimal_rendering() {
    assert_eq!(decimal_string(0), "0");
    assert_eq!(decimal_string(7), "7");
    assert_eq!(decimal_string(10), "10");
    assert_eq!(decimal_string(1203), "1203");
    assert_eq!(decimal_string(u64::MAX), u64::MAX.to_string());
}
