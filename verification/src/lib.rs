//! Launcher core: hierarchical tags, filters, favorites, user data, history,
//! workflow packs, extensions and the pure decision logic of the launcher UI.

pub mod actions;
pub mod calc;
pub mod config;
pub mod demo;
pub mod desktop;
pub mod extension;
pub mod favorites;
pub mod history;
pub mod icons;
pub mod keyed;
pub mod launcher;
pub mod laws;
pub mod matching;
pub mod filter;
pub mod pack;
pub mod provider;
pub mod query;
pub mod sidebar;
pub mod tags;
pub mod text;
pub mod theme;
pub mod ui;
pub mod userdata;
