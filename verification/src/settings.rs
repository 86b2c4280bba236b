//! The application settings as they are stored and edited.

use vstd::prelude::*;

verus! {

#[derive(Debug, Clone, PartialEq, Eq)]
pub struct AppModuleSettings {
    pub enabled: bool,
}

#[derive(Debug, Clone, PartialEq, Eq)]
pub struct AppModulesSettings {
    pub market_prices: AppModuleSettings,
    pub developer_tools: AppModuleSettings,
    pub git_sync: AppModuleSettings,
}

/// How a journal commodity is looked up at the price source.
#[derive(Debug, Clone, PartialEq, Eq)]
pub struct CommoditySymbolMapping {
    pub commodity: String,
    pub symbol: String,
}

#[derive(Debug, Clone, PartialEq, Eq)]
pub struct AppSettings {
    pub journal_path: String,
    pub hledger_path: String,
    pub theme: String,
    pub language: String,
    pub power_user: bool,
    pub default_commodity: String,
    pub fetch_prices: bool,
    pub commodity_symbols: Vec<CommoditySymbolMapping>,
    pub exclude_balances: String,
    pub include_investments: String,
    pub prefill_postings: bool,
    pub modules: AppModulesSettings,
}

impl Default for AppModuleSettings {
    fn default() -> (r: Self)
        ensures
            !r.enabled,
    {
        AppModuleSettings { enabled: false }
    }
}

impl Default for AppModulesSettings {
    fn default() -> (r: Self)
        ensures
            !r.market_prices.enabled,
            !r.developer_tools.enabled,
            !r.git_sync.enabled,
    {
        AppModulesSettings {
            market_prices: AppModuleSettings { enabled: false },
            developer_tools: AppModuleSettings { enabled: false },
            git_sync: AppModuleSettings { enabled: false },
        }
    }
}

/// The theme of fresh settings.
pub fn default_theme() -> (r: String)
    ensures
        r@ == "system"@,
{
    "system".to_owned()
}

/// The language of fresh settings.
pub fn default_language() -> (r: String)
    ensures
        r@ == "system"@,
{
    "system".to_owned()
}

/// Settings with nothing configured: empty paths, the system theme and
/// language, every switch off and no module enabled.
pub open spec fn is_default_settings(s: AppSettings) -> bool {
    &&& s.journal_path@ == Seq::<char>::empty()
    &&& s.hledger_path@ == Seq::<char>::empty()
    &&& s.theme@ == "system"@
    &&& s.language@ == "system"@
    &&& !s.power_user
    &&& s.default_commodity@ == Seq::<char>::empty()
    &&& !s.fetch_prices
    &&& s.commodity_symbols@.len() == 0
    &&& s.exclude_balances@ == Seq::<char>::empty()
    &&& s.include_investments@ == Seq::<char>::empty()
    &&& !s.prefill_postings
    &&& !s.modules.market_prices.enabled
    &&& !s.modules.developer_tools.enabled
    &&& !s.modules.git_sync.enabled
}

impl Default for AppSettings {
    fn default() -> (r: Self)
        ensures
            is_default_settings(r),
    {
        AppSettings {
            journal_path: String::new(),
            hledger_path: String::new(),
            theme: default_theme(),
            language: default_language(),
            power_user: false,
            default_commodity: String::new(),
            fetch_prices: false,
            commodity_symbols: Vec::new(),
            exclude_balances: String::new(),
            include_investments: String::new(),
            prefill_postings: false,
            modules: AppModulesSettings {
                market_prices: AppModuleSettings { enabled: false },
                developer_tools: AppModuleSettings { enabled: false },
                git_sync: AppModuleSettings { enabled: false },
            },
        }
    }
}

} // verus!
