//! Small state types shared with the surrounding application, and the
//! verified helpers that present variable values.

use vstd::prelude::*;

use crate::text::{
    byte_cut_idx, lemma_utf8_len_bounds, sub_string, utf8_len, utf8_len_at_most,
    utf8_prefix_within,
};

verus! {

/// The panel that currently has focus.
#[derive(Debug, Clone, Copy, PartialEq, Eq, Structural)]
pub enum ActivePanel {
    FileBrowser,
    Editor,
    Response,
    Assertions,
    Variables,
}

impl Default for ActivePanel {
    fn default() -> (r: Self)
        ensures
            r == ActivePanel::FileBrowser,
    {
        ActivePanel::FileBrowser
    }
}

/// The application input mode.
#[derive(Debug, Clone, Copy, PartialEq, Eq, Structural)]
pub enum AppMode {
    Normal,
    Editing,
    Search,
    Command,
    Filter,
    Rename,
}

impl Default for AppMode {
    fn default() -> (r: Self)
        ensures
            r == AppMode::Normal,
    {
        AppMode::Normal
    }
}

/// The editor sub-mode while editing.
#[derive(Debug, Clone, Copy, PartialEq, Eq, Structural)]
pub enum VimMode {
    /// Navigation and commands.
    Normal,
    /// Text input.
    Insert,
}

impl Default for VimMode {
    fn default() -> (r: Self)
        ensures
            r == VimMode::Normal,
    {
        VimMode::Normal
    }
}

/// Severity of a status-bar message.
#[derive(Debug, Clone, Copy, PartialEq, Eq, Structural)]
pub enum StatusLevel {
    Info,
    Success,
    Warning,
    Error,
}

/// Identity of a visual effect, so that one of each kind runs at a time.
#[derive(Debug, Clone, Copy, PartialEq, Eq, Structural)]
pub enum EffectId {
    /// Panel focus highlight.
    PanelFocus(ActivePanel),
    /// Status message notification.
    StatusNotification,
    /// Execution start pulse.
    ExecutionStart,
    /// Execution complete flash.
    ExecutionComplete,
    /// Help overlay.
    HelpOverlay,
    /// Response panel update.
    ResponseUpdate,
}

/// The tab selected in the response panel.
#[derive(Debug, Clone, Copy, PartialEq, Eq, Structural)]
pub enum ResponseTab {
    Body,
    Headers,
    Raw,
}

impl Default for ResponseTab {
    fn default() -> (r: Self)
        ensures
            r == ResponseTab::Body,
    {
        ResponseTab::Body
    }
}

impl ResponseTab {
    /// The position of the tab in the tab bar.
    pub fn index(&self) -> (r: usize)
        ensures
            r == (match *self {
                ResponseTab::Body => 0int,
                ResponseTab::Headers => 1int,
                ResponseTab::Raw => 2int,
            }),
    {
        match self {
            ResponseTab::Body => 0,
            ResponseTab::Headers => 1,
            ResponseTab::Raw => 2,
        }
    }
}

/// One entry of the variables panel.
#[derive(Debug, Clone, PartialEq, Eq)]
pub struct Variable {
    pub name: String,
    pub value: String,
    /// Whether the value is masked when displayed.
    pub is_secret: bool,
}

/// How a secret value is displayed: values of at most four UTF-8 bytes
/// are fully masked; longer ones show their first character followed by a
/// masked tail.
pub open spec fn spec_mask_secret(v: Seq<char>) -> Seq<char> {
    if utf8_len(v) <= 4 {
        "\u{2592}\u{2592}\u{2592}"@
    } else {
        seq![v[0]] + "\u{2592}\u{2592}..."@
    }
}

/// Masks a secret value for display.
pub fn mask_secret(value: &str) -> (r: String)
    ensures
        r@ == spec_mask_secret(value@),
{
    if utf8_len_at_most(value, 4) {
        "\u{2592}\u{2592}\u{2592}".to_owned()
    } else {
        proof {
            // More than four encoded bytes means at least one character.
            lemma_utf8_len_bounds(value@);
        }
        let mut r = sub_string(value, 0, 1);
        proof {
            assert(value@.subrange(0, 1) =~= seq![value@[0]]);
        }
        r.append("\u{2592}\u{2592}...");
        r
    }
}

/// How an overlong value is displayed: cut to at most `max` UTF-8 bytes
/// of it — a cut never falls inside a character — with an ellipsis
/// appended.
pub open spec fn spec_truncate_value(v: Seq<char>, max: int) -> Seq<char> {
    if utf8_len(v) <= max {
        v
    } else {
        v.take(byte_cut_idx(v, 0, max)) + "..."@
    }
}

/// Truncates a value to at most `max_len` bytes for display.
pub fn truncate_value(value: &str, max_len: usize) -> (r: String)
    ensures
        r@ == spec_truncate_value(value@, max_len as int),
{
    if utf8_len_at_most(value, max_len) {
        value.to_owned()
    } else {
        let k = utf8_prefix_within(value, max_len);
        let mut r = sub_string(value, 0, k);
        proof {
            assert(value@.subrange(0, k as int) =~= value@.take(k as int));
        }
        r.append("...");
        r
    }
}

/// One node of the file tree. The surrounding application learns the
/// display name and the directory flag from the filesystem and hands them
/// in as plain values. (The type is recursive, which rules a derived
/// clone out; rebuild nodes with [`FileEntry::new`] instead.)
#[derive(Debug)]
pub struct FileEntry {
    pub path: std::path::PathBuf,
    /// The displayed name, normally the path's final component.
    pub name: String,
    pub is_dir: bool,
    pub is_expanded: bool,
    /// Nesting depth in the tree.
    pub depth: usize,
    pub children: Vec<FileEntry>,
}

impl FileEntry {
    /// A collapsed, childless entry for the given path.
    pub fn new(path: std::path::PathBuf, name: String, is_dir: bool, depth: usize) -> (r: Self)
        ensures
            r.path == path,
            r.name == name,
            r.is_dir == is_dir,
            !r.is_expanded,
            r.depth == depth,
            r.children@.len() == 0,
    {
        FileEntry { path, name, is_dir, is_expanded: false, depth, children: Vec::new() }
    }
}

} // verus!
