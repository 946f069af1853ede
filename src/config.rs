use vstd::prelude::*;

verus! {

/// Default search provider settings.
pub struct SearchConfig {
    pub provider: Option<String>,
    pub search_url: Option<String>,
    pub suggest_url: Option<String>,
}

/// Browser start-up and chrome settings.
pub struct BrowserConfig {
    pub restore_on_startup: Option<String>,
    pub show_home_button: Option<bool>,
    pub favorites_bar: Option<bool>,
    pub hide_first_run: Option<bool>,
}

/// Privacy toggles.
pub struct PrivacyConfig {
    pub tracking_prevention: Option<String>,
    pub password_manager: Option<bool>,
    pub autofill_credit_card: Option<bool>,
    pub autofill_address: Option<bool>,
}

/// One entry of the extensions mapping, in the order the mapping gives.
/// `spec` is the extension spec when the entry's value is a plain string,
/// and `None` for any other kind of value.
pub struct ExtensionItem {
    pub key: String,
    pub spec: Option<String>,
}

/// The whole user configuration: four optional sections.
pub struct Config {
    pub search: Option<SearchConfig>,
    pub extensions: Option<Vec<ExtensionItem>>,
    pub browser: Option<BrowserConfig>,
    pub privacy: Option<PrivacyConfig>,
}

} // verus!
