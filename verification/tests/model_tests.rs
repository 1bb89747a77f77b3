use std::path::PathBuf;

use hurl_tui::config::Config;
use hurl_tui::model::{
    mask_secret, truncate_value, ActivePanel, AppMode, FileEntry, ResponseTab, StatusLevel,
    Variable, VimMode,
};
use hurl_tui::theme::BoxChars;

#[test]
fn test_config_defaults() {
    let config = Config::default();
    assert_eq!(config.general.timeout, 30);
    assert_eq!(config.general.max_history, 100);
    assert!(config.general.default_directory.is_none());
    assert!(config.general.hurl_path.is_none());
    assert!(config.ui.show_line_numbers);
    assert!(config.ui.show_icons);
    assert_eq!(config.ui.theme, "default");
    assert_eq!(config.ui.border_style, "rounded");
    assert_eq!(config.ui.file_browser_width, 20);
    assert_eq!(config.editor.tab_size, 2);
    assert!(config.editor.use_spaces);
    assert!(!config.editor.auto_save);
    assert!(config.editor.syntax_highlighting);
    assert_eq!(config.keys.quit, "q");
    assert_eq!(config.keys.run, "r");
    assert_eq!(config.keys.edit, "e");
    assert_eq!(config.keys.save, "ctrl+s");
    assert_eq!(config.keys.help, "?");
}

#[test]
fn test_mode_defaults() {
    assert_eq!(ActivePanel::default(), ActivePanel::FileBrowser);
    assert_eq!(AppMode::default(), AppMode::Normal);
    assert_eq!(VimMode::default(), VimMode::Normal);
    assert_eq!(ResponseTab::default(), ResponseTab::Body);
}

#[test]
fn test_response_tab_index() {
    assert_eq!(ResponseTab::Body.index(), 0);
    assert_eq!(ResponseTab::Headers.index(), 1);
    assert_eq!(ResponseTab::Raw.index(), 2);
}

#[test]
fn test_status_levels_distinct() {
    assert_ne!(StatusLevel::Info, StatusLevel::Error);
    assert_ne!(StatusLevel::Success, StatusLevel::Warning);
}

#[test]
fn test_mask_secret_short_value_fully_masked() {
    assert_eq!(mask_secret("abcd"), "\u{2592}\u{2592}\u{2592}");
    assert_eq!(mask_secret(""), "\u{2592}\u{2592}\u{2592}");
}

#[test]
fn test_mask_secret_long_value_keeps_first_char() {
    assert_eq!(mask_secret("secretvalue"), "s\u{2592}\u{2592}...");
}

#[test]
fn test_truncate_value_short_is_kept() {
    assert_eq!(truncate_value("short", 10), "short");
}

#[test]
fn test_truncate_value_long_is_cut() {
    assert_eq!(truncate_value("a rather long value", 6), "a rath...");
}

#[test]
fn test_variable_holds_fields() {
    let v = Variable {
        name: "token".to_string(),
        value: "abc123".to_string(),
        is_secret: true,
    };
    assert_eq!(v.name, "token");
    assert!(v.is_secret);
    assert_eq!(mask_secret(&v.value), "a\u{2592}\u{2592}...");
}

#[test]
fn test_spinner_frames_cycle() {
    assert_eq!(BoxChars::spinner(0), "\u{280b}");
    assert_eq!(BoxChars::spinner(9), "\u{280f}");
    assert_eq!(BoxChars::spinner(10), BoxChars::spinner(0));
    assert_eq!(BoxChars::spinner_matrix(1), "\u{25d3}");
    assert_eq!(BoxChars::spinner_matrix(5), BoxChars::spinner_matrix(1));
    assert_eq!(BoxChars::loading_bar(0), "[    ]");
    assert_eq!(BoxChars::loading_bar(4), "[====]");
    assert_eq!(BoxChars::loading_bar(9), BoxChars::loading_bar(4));
}

#[test]
fn test_mask_secret_threshold_counts_bytes() {
    // Three characters but five UTF-8 bytes: over the four-byte limit,
    // so the first character is shown.
    assert_eq!(mask_secret("a\u{3b2}\u{3b2}"), "a\u{2592}\u{2592}...");
    // Two characters, four bytes: fully masked.
    assert_eq!(mask_secret("\u{3b2}\u{3b2}"), "\u{2592}\u{2592}\u{2592}");
}

#[test]
fn test_truncate_value_counts_bytes() {
    // Three two-byte characters make six bytes; a limit of four keeps
    // exactly two characters.
    assert_eq!(truncate_value("\u{3b1}\u{3b1}\u{3b1}", 4), "\u{3b1}\u{3b1}...");
}

#[test]
fn test_truncate_value_never_cuts_inside_a_character() {
    // A limit of three falls inside the second two-byte character; the
    // cut backs up to the character boundary.
    assert_eq!(truncate_value("\u{3b1}\u{3b2}\u{3b3}", 3), "\u{3b1}...");
}

#[test]
fn test_file_entry_new() {
    let entry = FileEntry::new(PathBuf::from("/tests/api.hurl"), "api.hurl".to_string(), false, 2);
    assert_eq!(entry.path, PathBuf::from("/tests/api.hurl"));
    assert_eq!(entry.name, "api.hurl");
    assert!(!entry.is_dir);
    assert!(!entry.is_expanded);
    assert_eq!(entry.depth, 2);
    assert!(entry.children.is_empty());
}
