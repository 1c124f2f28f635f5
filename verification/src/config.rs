//! Launcher settings and their defaults. Reading and writing the TOML file
//! is done by the application.

use vstd::prelude::*;

use crate::text::{config_file, config_file_path, opt_str_view};

verus! {

/// General settings.
#[derive(Debug, Clone, PartialEq)]
pub struct GeneralConfig {
    /// Maximum results shown.
    pub max_results: usize,
    /// Default launcher mode: "full" or "palette".
    pub default_mode: String,
    /// Show the sidebar in full mode.
    pub show_sidebar: bool,
    /// Show filter chips.
    pub show_chips: bool,
    /// Show the action bar.
    pub show_action_bar: bool,
}

impl Default for GeneralConfig {
    fn default() -> (r: Self)
        ensures
            r.max_results == 50,
            r.default_mode@ == "full"@,
            r.show_sidebar,
            r.show_chips,
            r.show_action_bar,
    {
        GeneralConfig {
            max_results: 50,
            default_mode: "full".to_owned(),
            show_sidebar: true,
            show_chips: true,
            show_action_bar: true,
        }
    }
}

/// Theme settings.
#[derive(Debug, Clone, PartialEq)]
pub struct ThemeConfig {
    /// Theme name: "dark", "light", or a custom theme file path.
    pub name: String,
    /// Custom CSS appended to the theme.
    pub custom_css: String,
}

impl Default for ThemeConfig {
    fn default() -> (r: Self)
        ensures
            r.name@ == "dark"@,
            r.custom_css@ == Seq::<char>::empty(),
    {
        ThemeConfig { name: "dark".to_owned(), custom_css: String::new() }
    }
}

/// Key bindings.
#[derive(Debug, Clone, PartialEq)]
pub struct KeybindConfig {
    /// Activate the selected item.
    pub activate: String,
    /// Move the selection down.
    pub next: String,
    /// Move the selection up.
    pub prev: String,
    /// Clear the query, or close.
    pub escape: String,
    /// Toggle full and palette mode.
    pub toggle_mode: String,
}

impl Default for KeybindConfig {
    fn default() -> (r: Self)
        ensures
            r.activate@ == "Enter"@,
            r.next@ == "ArrowDown"@,
            r.prev@ == "ArrowUp"@,
            r.escape@ == "Escape"@,
            r.toggle_mode@ == "Ctrl+Shift+P"@,
    {
        KeybindConfig {
            activate: "Enter".to_owned(),
            next: "ArrowDown".to_owned(),
            prev: "ArrowUp".to_owned(),
            escape: "Escape".to_owned(),
            toggle_mode: "Ctrl+Shift+P".to_owned(),
        }
    }
}

/// Settings that override a provider's own.
#[derive(Debug, Clone, PartialEq)]
pub struct ProviderOverride {
    /// Another prefix character.
    pub prefix: Option<String>,
    /// Another maximum number of results.
    pub max_results: Option<usize>,
    /// Disable the provider.
    pub disabled: bool,
    /// Hide the provider from the provider list.
    pub hidden: bool,
}

impl Default for ProviderOverride {
    fn default() -> (r: Self)
        ensures
            r.prefix is None,
            r.max_results is None,
            !r.disabled,
            !r.hidden,
    {
        ProviderOverride { prefix: None, max_results: None, disabled: false, hidden: false }
    }
}

/// Path of the configuration file, given the values of `XDG_CONFIG_HOME` and
/// `HOME` (`None` where unset).
pub fn default_config_path(xdg_config_home: Option<&str>, home: Option<&str>) -> (r: String)
    ensures
        r@ == config_file(opt_str_view(xdg_config_home), opt_str_view(home), "config.toml"@),
{
    config_file_path(xdg_config_home, home, "config.toml")
}

} // verus!
