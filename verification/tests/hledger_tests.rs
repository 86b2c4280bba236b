use ledgera::hledger::{hledger_executable, hledger_executable_with_source};
use ledgera::settings::AppSettings;

fn settings_with_path(path: &str) -> AppSettings {
    AppSettings {
        journal_path: String::new(),
        hledger_path: path.to_string(),
        theme: "system".to_string(),
        language: "system".to_string(),
        power_user: false,
        default_commodity: String::new(),
        fetch_prices: false,
        commodity_symbols: Vec::new(),
        exclude_balances: String::new(),
        include_investments: String::new(),
        prefill_postings: false,
        modules: Default::default(),
    }
}

#[test]
fn configured_hledger_path_overrides_detection() {
    let settings = settings_with_path("/custom/bin/hledger");
    assert_eq!(hledger_executable(&settings, None), "/custom/bin/hledger");
}

#[test]
fn detected_hledger_is_used_without_configuration() {
    let settings = settings_with_path("   ");
    let (exe, source) = hledger_executable_with_source(&settings, Some("/usr/bin/hledger".to_string()));
    assert_eq!(exe, "/usr/bin/hledger");
    assert_eq!(source, "detected");
    let (exe, source) = hledger_executable_with_source(&settings, None);
    assert_eq!(exe, "hledger");
    assert_eq!(source, "fallback");
    let configured = settings_with_path(" /opt/hledger ");
    assert_eq!(hledger_executable_with_source(&configured, None).1, "configured");
    assert_eq!(hledger_executable(&configured, None), "/opt/hledger");
}

#[test]
fn default_settings_are_empty() {
    let settings = AppSettings::default();
    assert_eq!(settings.theme, "system");
    assert_eq!(settings.language, "system");
    assert!(settings.journal_path.is_empty());
    assert!(!settings.modules.git_sync.enabled);
}
