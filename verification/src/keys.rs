//! Keyboard shortcuts with a primary modifier (Cmd / Ctrl / Meta).
//!
//! A key press is read as plain values: the text of a character key and
//! which modifiers are held. The caller fills them in from the UI's event.
use vstd::prelude::*;
use crate::text::{chars_of, eq_ignore_ascii_case, eq_ignore_ascii_case_exec};

verus! {

/// A key press as the shortcuts read it.
pub struct KeyPress {
    /// The text of a character key; `None` for any other key.
    pub typed: Option<String>,
    /// Cmd on macOS, the Windows key elsewhere.
    pub super_key: bool,
    pub control: bool,
    pub meta: bool,
}

/// The text typed by a key press, if it is a character key.
pub open spec fn typed_text(press: KeyPress) -> Option<Seq<char>> {
    match press.typed {
        Some(t) => Some(t@),
        None => None,
    }
}

/// Whether a primary modifier (Cmd / Super, Ctrl or Meta) is held.
pub open spec fn primary_held(press: KeyPress) -> bool {
    press.super_key || press.control || press.meta
}

/// A shortcut: the key typed `ch` (ignoring ASCII case) with a primary
/// modifier held.
pub open spec fn shortcut(typed: Option<Seq<char>>, ch: Seq<char>, primary: bool) -> bool {
    typed matches Some(t) && eq_ignore_ascii_case(t, ch) && primary
}

/// Whether a key with text `typed` (`None` for a non-character key) and a
/// primary modifier state make the shortcut `ch`.
pub fn shortcut_matches(typed: &Option<String>, ch: &str, primary: bool) -> (r: bool)
    ensures
        r == shortcut(
            match typed {
                Some(t) => Some(t@),
                None => None,
            },
            ch@,
            primary,
        ),
{
    match typed {
        Some(t) => eq_ignore_ascii_case_exec(&chars_of(t.as_str()), &chars_of(ch)) && primary,
        None => false,
    }
}

/// Whether Cmd (Super), Ctrl or Meta is held.
pub fn is_primary_modifier(press: &KeyPress) -> (r: bool)
    ensures
        r == primary_held(*press),
{
    press.super_key || press.control || press.meta
}

/// Whether the key press is the shortcut primary modifier + `ch`.
pub fn is_mod_char_shortcut(press: &KeyPress, ch: &str) -> (r: bool)
    ensures
        r == shortcut(typed_text(*press), ch@, primary_held(*press)),
{
    let primary = is_primary_modifier(press);
    shortcut_matches(&press.typed, ch, primary)
}

/// Whether the key press is the save shortcut (primary modifier + S).
pub fn is_save_shortcut(press: &KeyPress) -> (r: bool)
    ensures
        r == shortcut(typed_text(*press), "s"@, primary_held(*press)),
{
    is_mod_char_shortcut(press, "s")
}

/// A console-wide shortcut.
#[derive(Debug, Clone, Copy, PartialEq, Eq, Structural)]
pub enum ConsoleShortcut {
    /// Primary + O: choose a project folder.
    OpenProject,
    /// Primary + J: create an application.
    CreateApplication,
    /// Primary + E: create an extension plugin.
    CreateExtensionPlugin,
}

/// The console-wide shortcut a key makes, if any.  The shortcuts only apply
/// while no centre tab is open, files can be browsed, and neither creation
/// dialog is open.
pub open spec fn console_shortcut_of(
    typed: Option<Seq<char>>,
    primary: bool,
    center_tabs_open: bool,
    files_available: bool,
    dialog_open: bool,
) -> Option<ConsoleShortcut> {
    if center_tabs_open || !files_available || dialog_open {
        None
    } else if shortcut(typed, "o"@, primary) {
        Some(ConsoleShortcut::OpenProject)
    } else if shortcut(typed, "j"@, primary) {
        Some(ConsoleShortcut::CreateApplication)
    } else if shortcut(typed, "e"@, primary) {
        Some(ConsoleShortcut::CreateExtensionPlugin)
    } else {
        None
    }
}

/// The console-wide shortcut made by a key with text `typed` (`None` for a
/// non-character key) and a primary modifier state.
pub fn console_shortcut_for(
    typed: &Option<String>,
    primary: bool,
    center_tabs_open: bool,
    files_available: bool,
    dialog_open: bool,
) -> (r: Option<ConsoleShortcut>)
    ensures
        r == console_shortcut_of(
            match typed {
                Some(t) => Some(t@),
                None => None,
            },
            primary,
            center_tabs_open,
            files_available,
            dialog_open,
        ),
{
    if center_tabs_open || !files_available || dialog_open {
        None
    } else if shortcut_matches(typed, "o", primary) {
        Some(ConsoleShortcut::OpenProject)
    } else if shortcut_matches(typed, "j", primary) {
        Some(ConsoleShortcut::CreateApplication)
    } else if shortcut_matches(typed, "e", primary) {
        Some(ConsoleShortcut::CreateExtensionPlugin)
    } else {
        None
    }
}

/// The console-wide shortcut made by a key press.
pub fn console_shortcut(
    press: &KeyPress,
    center_tabs_open: bool,
    files_available: bool,
    dialog_open: bool,
) -> (r: Option<ConsoleShortcut>)
    ensures
        r == console_shortcut_of(
            typed_text(*press),
            primary_held(*press),
            center_tabs_open,
            files_available,
            dialog_open,
        ),
{
    let primary = is_primary_modifier(press);
    console_shortcut_for(&press.typed, primary, center_tabs_open, files_available, dialog_open)
}

} // verus!
