//! Preferences of the user that hold for all repositories.

use vstd::prelude::*;

use crate::paths::path_under;

verus! {

/// System-wide configuration.
#[derive(Debug, Clone, Copy, PartialEq, Eq, Structural)]
pub struct SystemConfig {
    /// The daemon.
    pub daemon: DaemonConfig,
    /// Garbage collection.
    pub gc: GcConfig,
}

/// Configuration of the daemon.
#[derive(Debug, Clone, Copy, PartialEq, Eq, Structural)]
pub struct DaemonConfig {
    /// Seconds between checkpoints.
    pub checkpoint_interval_secs: u64,
    /// Whether garbage is collected automatically.
    pub auto_gc_enabled: bool,
    /// Seconds after which garbage is collected whatever the number of checkpoints.
    pub auto_gc_interval_secs: u64,
    /// The number of checkpoints above which garbage is collected.
    pub auto_gc_checkpoint_threshold: usize,
}

/// Configuration of garbage collection.
#[derive(Debug, Clone, Copy, PartialEq, Eq, Structural)]
pub struct GcConfig {
    /// Number of checkpoints to keep.
    pub retain_count: usize,
    /// Hours within which all checkpoints are kept.
    pub retain_hours: u64,
    /// Whether pinned checkpoints are always kept.
    pub retain_pins: bool,
}

/// What garbage collection keeps.
#[derive(Debug, Clone, Copy, PartialEq, Eq, Structural)]
pub struct RetentionPolicy {
    /// Number of checkpoints to keep.
    pub retain_dense_count: usize,
    /// Milliseconds within which all checkpoints are kept.
    pub retain_dense_window_ms: u64,
    /// Whether pinned checkpoints are always kept.
    pub retain_pins: bool,
}

impl Default for DaemonConfig {
    fn default() -> (c: Self)
        ensures
            c == (DaemonConfig {
                checkpoint_interval_secs: 5,
                auto_gc_enabled: true,
                auto_gc_interval_secs: 3600,
                auto_gc_checkpoint_threshold: 5000,
            }),
    {
        DaemonConfig {
            checkpoint_interval_secs: 5,
            auto_gc_enabled: true,
            auto_gc_interval_secs: 3600,
            auto_gc_checkpoint_threshold: 5000,
        }
    }
}

impl Default for GcConfig {
    fn default() -> (c: Self)
        ensures
            c == (GcConfig { retain_count: 2000, retain_hours: 24, retain_pins: true }),
    {
        GcConfig { retain_count: 2000, retain_hours: 24, retain_pins: true }
    }
}

/// The configuration where the user has none.
pub open spec fn default_config() -> SystemConfig {
    SystemConfig {
        daemon: DaemonConfig {
            checkpoint_interval_secs: 5,
            auto_gc_enabled: true,
            auto_gc_interval_secs: 3600,
            auto_gc_checkpoint_threshold: 5000,
        },
        gc: GcConfig { retain_count: 2000, retain_hours: 24, retain_pins: true },
    }
}

impl Default for SystemConfig {
    fn default() -> (c: Self)
        ensures
            c == default_config(),
    {
        SystemConfig { daemon: DaemonConfig::default(), gc: GcConfig::default() }
    }
}

impl GcConfig {
    /// The policy for garbage collection, with the window in milliseconds.
    pub fn to_retention_policy(&self) -> (p: RetentionPolicy)
        requires
            self.retain_hours * 3600000 <= u64::MAX,
        ensures
            p.retain_dense_count == self.retain_count,
            p.retain_dense_window_ms == self.retain_hours * 3600000,
            p.retain_pins == self.retain_pins,
    {
        RetentionPolicy {
            retain_dense_count: self.retain_count,
            retain_dense_window_ms: self.retain_hours * 60 * 60 * 1000,
            retain_pins: self.retain_pins,
        }
    }
}

/// The path of the configuration file in the configuration directory.
pub fn config_file_path(config_dir: Option<&str>) -> (path: Option<String>)
    ensures
        match config_dir {
            Some(dir) => path is Some && path->0@ == crate::paths::under(dir@, "config.toml"@),
            None => path is None,
        },
{
    match config_dir {
        Some(dir) => Some(path_under(dir, "config.toml")),
        None => None,
    }
}

/// How the configuration is loaded.
#[derive(Debug)]
pub enum LoadPlan {
    /// The defaults hold: no directory is known, or it does not exist.
    Defaults,
    /// The defaults hold and are written to this file, which does not exist.
    CreateDefaults { path: String },
    /// Read this file.
    Read { path: String },
}

/// Decides how the configuration is loaded.
pub fn load_plan(path: Option<String>, dir_exists: bool, file_exists: bool) -> (plan: LoadPlan)
    ensures
        plan == plan_for(path, dir_exists, file_exists),
{
    match path {
        None => LoadPlan::Defaults,
        Some(p) => if file_exists {
            LoadPlan::Read { path: p }
        } else if dir_exists {
            LoadPlan::CreateDefaults { path: p }
        } else {
            LoadPlan::Defaults
        },
    }
}

/// What to write where the user has no configuration file: the defaults, if a
/// directory is known and the file does not exist.
pub fn init_if_missing(path: &Option<String>, exists: bool) -> (r: Option<SystemConfig>)
    ensures
        r == (if path is Some && !exists { Some(default_config()) } else { None }),
{
    if path.is_some() && !exists {
        Some(SystemConfig::default())
    } else {
        None
    }
}

/// What stands above the settings in an example of the configuration file.
pub open spec fn example_heading() -> Seq<char> {
    "# Timelapse System Configuration\n# Location: ~/.config/tl/config.toml\n#\n# This file configures system-wide Timelapse behavior.\n# Project-specific settings are in .tl/config.toml\n\n"@
}

/// An example of the configuration file, with the given settings as TOML text.
pub fn example_config(settings: &str) -> (text: String)
    ensures
        text@ == example_heading() + settings@,
{
    let mut text =
        "# Timelapse System Configuration\n# Location: ~/.config/tl/config.toml\n#\n# This file configures system-wide Timelapse behavior.\n# Project-specific settings are in .tl/config.toml\n\n".to_owned();
    text.append(settings);
    text
}

/// How the configuration is loaded.
pub open spec fn plan_for(path: Option<String>, dir_exists: bool, file_exists: bool) -> LoadPlan {
    match path {
        None => LoadPlan::Defaults,
        Some(p) => if file_exists {
            LoadPlan::Read { path: p }
        } else if dir_exists {
            LoadPlan::CreateDefaults { path: p }
        } else {
            LoadPlan::Defaults
        },
    }
}

/// A file that exists is read and never written over; the defaults are written only where
/// the directory is there and the file is not.
pub proof fn existing_settings_are_read(path: Option<String>, dir_exists: bool, file_exists: bool)
    ensures
        plan_for(path, dir_exists, file_exists) is Read <==> path is Some && file_exists,
        plan_for(path, dir_exists, file_exists) is Read ==> plan_for(path, dir_exists, file_exists)->Read_path
            == path->0,
        plan_for(path, dir_exists, file_exists) is CreateDefaults <==> path is Some && dir_exists && !file_exists,
        plan_for(path, dir_exists, file_exists) is CreateDefaults ==> plan_for(
            path,
            dir_exists,
            file_exists,
        )->CreateDefaults_path == path->0,
{
}

} // verus!
