//! Developer mode: switched by three quick clicks on the About dialog's title,
//! kept in a small file, and mirrored as a class on the page body.
//!
//! Reading and writing the file, reading the clock and running the script are
//! the caller's part.
use vstd::prelude::*;
use crate::text::{str_eq, trim, trim_str};

verus! {

/// Whether the stored file switches developer mode on: its text, trimmed, is
/// `1`.
pub open spec fn stored_enables(stored: Option<Seq<char>>) -> bool {
    match stored {
        Some(s) => trim(s) == "1"@,
        None => false,
    }
}

/// Whether developer mode is on, from the text of its file (`None` when the
/// file cannot be read).
pub fn developer_mode_from_file(stored: Option<String>) -> (r: bool)
    ensures
        r == stored_enables(
            match stored {
                Some(s) => Some(s@),
                None => None,
            },
        ),
{
    match stored {
        Some(s) => {
            let t = trim_str(s.as_str());
            str_eq(t.as_str(), "1")
        },
        None => false,
    }
}

/// What to write to the file: `1` and a line break to switch developer mode
/// on; `None` means the file is removed.
pub fn developer_mode_file_body(enabled: bool) -> (r: Option<String>)
    ensures
        enabled ==> (r matches Some(s) && s@ == "1\n"@),
        !enabled ==> r is None,
{
    if enabled {
        Some("1\n".to_string())
    } else {
        None
    }
}

/// The page script that adds or removes the body's developer-mode class.
pub open spec fn body_class_script(enabled: bool) -> Seq<char> {
    "(() => {\n  const b = document.body;\n  if (!b) return;\n  if ("@
        + (if enabled {
        "1"@
    } else {
        "0"@
    })
        + " === 1) b.classList.add('ac-developer-mode');\n  else b.classList.remove('ac-developer-mode');\n})()"@
}

/// The page script that mirrors developer mode on the body's class.
pub fn developer_mode_script(enabled: bool) -> (r: String)
    ensures
        r@ == body_class_script(enabled),
{
    let mut out = "(() => {\n  const b = document.body;\n  if (!b) return;\n  if (".to_string();
    out.append(if enabled { "1" } else { "0" });
    out.append(" === 1) b.classList.add('ac-developer-mode');\n  else b.classList.remove('ac-developer-mode');\n})()");
    out
}

/// Clicks needed in a row to switch developer mode.
pub const TRIPLE_CLICKS: u32 = 3;

/// The outcome of one click on the About dialog's title.
pub struct ClickTally {
    /// The clicks counted so far, kept for the next click.
    pub count: u32,
    /// Whether this click completes the series: the switch is flipped and the
    /// count starts over.
    pub fire: bool,
}

/// One click: `within_window` tells whether it came soon enough after the
/// previous one to continue the series; otherwise the series starts over at
/// this click.
pub fn triple_click_step(count: u32, within_window: bool) -> (r: ClickTally)
    ensures
        ({
            let n: int = if within_window {
                if count < u32::MAX {
                    count + 1
                } else {
                    u32::MAX as int
                }
            } else {
                1
            };
            &&& r.fire == (n >= TRIPLE_CLICKS)
            &&& r.count == (if r.fire {
                0
            } else {
                n
            })
        }),
{
    let n = if within_window {
        count.saturating_add(1)
    } else {
        1
    };
    if n >= TRIPLE_CLICKS {
        ClickTally { count: 0, fire: true }
    } else {
        ClickTally { count: n, fire: false }
    }
}

/// The developer-mode switch shared by the console's panels.
pub struct DeveloperMode(pub bool);

/// The state after one flip of the switch.
pub open spec fn toggled(enabled: bool) -> bool {
    !enabled
}

/// Flips developer mode and returns the new state, which the caller then
/// saves and mirrors on the page body.
pub fn toggle(developer_mode: &mut DeveloperMode) -> (next: bool)
    ensures
        final(developer_mode).0 == toggled(old(developer_mode).0),
        next == final(developer_mode).0,
{
    let next = !developer_mode.0;
    developer_mode.0 = next;
    next
}

/// Switches developer mode on or off explicitly.
pub fn apply(enabled: bool, developer_mode: &mut DeveloperMode)
    ensures
        final(developer_mode).0 == enabled,
{
    developer_mode.0 = enabled;
}

// ---------------------------------------------------------------------------
// Laws
// ---------------------------------------------------------------------------

/// What the file holds after developer mode was saved as `enabled`: its text,
/// or `None` once it is removed.
pub open spec fn saved_file(enabled: bool) -> Option<Seq<char>> {
    if enabled {
        Some("1\n"@)
    } else {
        None
    }
}

/// Reading back the file that was written gives the saved state.
pub proof fn law_developer_mode_round_trip(enabled: bool)
    ensures
        stored_enables(saved_file(enabled)) == enabled,
{
    if enabled {
        reveal_strlit("1\n");
        reveal_strlit("1");
        let s = "1\n"@;
        assert(s.len() == 2 && s[0] == '1' && s[1] == '\n');
        assert(crate::text::trim_start(s) == s);
        assert(crate::text::is_ws(s.last()));
        assert(s.drop_last() =~= seq!['1']);
        assert(crate::text::trim_end(seq!['1']) == seq!['1']);
        assert(crate::text::trim_end(s) == crate::text::trim_end(s.drop_last()));
        assert(trim(s) =~= "1"@);
    }
}

/// Each flip changes developer mode, and flipping it twice gives back the
/// state it started from.
pub proof fn law_developer_toggle_twice(enabled: bool)
    ensures
        toggled(toggled(enabled)) == enabled,
        toggled(enabled) != enabled,
{
}

} // verus!
