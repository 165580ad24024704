//! The user's settings, as plain values. Reading them from the configuration
//! file is left to the program around the library.

use vstd::prelude::*;

verus! {

/// The whole configuration file.
#[derive(Debug, Clone)]
pub struct Config {
    /// A path to the game's resources.assets.
    pub assets_res: String,
    pub settings: Settings,
}

/// The settings that the modules read.
#[derive(Debug, Clone, Copy)]
pub struct Settings {
    /// HP at which to autonexus.
    pub autonexus_hp: i32,
    /// Reduces lag by blocking certain packets.
    pub antilag: bool,
    /// Developer mode.
    pub dev_mode: bool,
    /// Which client-side debuffs to disable.
    pub debuffs: Debuffs,
    pub edit_assets: EditAssets,
    pub damage_monitor: DamageMonitorConfig,
}

/// Each flag that is set disables that debuff on the client.
#[derive(Debug, Clone, Copy)]
pub struct Debuffs {
    pub blind: bool,
    pub hallucinating: bool,
    pub drunk: bool,
    pub confused: bool,
    pub hexed: bool,
    pub unstable: bool,
    pub darkness: bool,
}

/// Whether and how the asset file is edited.
#[derive(Debug, Clone, Copy)]
pub struct EditAssets {
    pub enabled: bool,
    /// Remove the client-side debuffs from the assets completely.
    pub force_debuffs: bool,
}

/// Settings of the damage monitor.
#[derive(Debug, Clone, Copy)]
pub struct DamageMonitorConfig {
    pub enabled: bool,
    /// How many earlier dungeons' reports to keep; 0 keeps only the current one.
    pub keep_memory: u32,
    /// Whether to open damage monitor links in the browser.
    pub open_browser: bool,
}

} // verus!
