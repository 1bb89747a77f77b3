//! Application configuration.
//!
//! Plain settings data with verified defaults. Reading a configuration
//! file from disk and writing one back are jobs for the surrounding
//! application; the library defines the settings themselves and what their
//! default values are.

use vstd::prelude::*;

verus! {

/// General application settings.
#[derive(Debug, Clone)]
pub struct GeneralConfig {
    /// Default working directory.
    pub default_directory: Option<std::path::PathBuf>,
    /// Path of the external test-runner binary, when it is not resolved
    /// from the search path.
    pub hurl_path: Option<std::path::PathBuf>,
    /// Request timeout in seconds.
    pub timeout: u64,
    /// Maximum number of history entries kept.
    pub max_history: usize,
}

impl GeneralConfig {
    /// The documented default values.
    pub open spec fn is_default(self) -> bool {
        &&& self.default_directory is None
        &&& self.hurl_path is None
        &&& self.timeout == 30
        &&& self.max_history == 100
    }
}

impl Default for GeneralConfig {
    fn default() -> (r: Self)
        ensures
            r.is_default(),
    {
        GeneralConfig { default_directory: None, hurl_path: None, timeout: 30, max_history: 100 }
    }
}

/// Interface settings.
#[derive(Debug, Clone)]
pub struct UiConfig {
    /// Show line numbers in the editor.
    pub show_line_numbers: bool,
    /// Show file icons.
    pub show_icons: bool,
    /// Name of the color theme.
    pub theme: String,
    /// Panel border style.
    pub border_style: String,
    /// File browser width as a percentage.
    pub file_browser_width: u16,
}

impl UiConfig {
    /// The documented default values.
    pub open spec fn is_default(self) -> bool {
        &&& self.show_line_numbers
        &&& self.show_icons
        &&& self.theme@ == "default"@
        &&& self.border_style@ == "rounded"@
        &&& self.file_browser_width == 20
    }
}

impl Default for UiConfig {
    fn default() -> (r: Self)
        ensures
            r.is_default(),
    {
        UiConfig {
            show_line_numbers: true,
            show_icons: true,
            theme: "default".to_owned(),
            border_style: "rounded".to_owned(),
            file_browser_width: 20,
        }
    }
}

/// Editor settings.
#[derive(Debug, Clone)]
pub struct EditorConfig {
    /// Width of one indentation step.
    pub tab_size: usize,
    /// Indent with spaces rather than tabs.
    pub use_spaces: bool,
    /// Save the file before each run.
    pub auto_save: bool,
    /// Highlight the definition syntax.
    pub syntax_highlighting: bool,
}

impl EditorConfig {
    /// The documented default values.
    pub open spec fn is_default(self) -> bool {
        &&& self.tab_size == 2
        &&& self.use_spaces
        &&& !self.auto_save
        &&& self.syntax_highlighting
    }
}

impl Default for EditorConfig {
    fn default() -> (r: Self)
        ensures
            r.is_default(),
    {
        EditorConfig { tab_size: 2, use_spaces: true, auto_save: false, syntax_highlighting: true }
    }
}

/// Keybinding settings.
#[derive(Debug, Clone)]
pub struct KeyConfig {
    pub quit: String,
    pub run: String,
    pub edit: String,
    pub save: String,
    pub help: String,
}

impl KeyConfig {
    /// The documented default bindings.
    pub open spec fn is_default(self) -> bool {
        &&& self.quit@ == "q"@
        &&& self.run@ == "r"@
        &&& self.edit@ == "e"@
        &&& self.save@ == "ctrl+s"@
        &&& self.help@ == "?"@
    }
}

impl Default for KeyConfig {
    fn default() -> (r: Self)
        ensures
            r.is_default(),
    {
        KeyConfig {
            quit: "q".to_owned(),
            run: "r".to_owned(),
            edit: "e".to_owned(),
            save: "ctrl+s".to_owned(),
            help: "?".to_owned(),
        }
    }
}

/// The whole application configuration.
#[derive(Debug, Clone)]
pub struct Config {
    pub general: GeneralConfig,
    pub ui: UiConfig,
    pub editor: EditorConfig,
    pub keys: KeyConfig,
}

impl Config {
    /// Every section holds its default values.
    pub open spec fn is_default(self) -> bool {
        &&& self.general.is_default()
        &&& self.ui.is_default()
        &&& self.editor.is_default()
        &&& self.keys.is_default()
    }
}

impl Default for Config {
    fn default() -> (r: Self)
        ensures
            r.is_default(),
    {
        Config {
            general: GeneralConfig::default(),
            ui: UiConfig::default(),
            editor: EditorConfig::default(),
            keys: KeyConfig::default(),
        }
    }
}

} // verus!
