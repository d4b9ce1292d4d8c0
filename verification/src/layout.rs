//! Which panels of the console are shown, as the style classes of the
//! sidebar, the centre panel and the chat.
//!
//! Widths and heights are measured and dragged in fractional pixels by the
//! caller; this module only decides the classes.
use vstd::prelude::*;

verus! {

/// The classes of the console root: marked while a panel is being resized.
pub fn console_class(resizing: bool) -> (r: &'static str)
    ensures
        r@ == (if resizing {
            "ac-console-root ac-console-root-resizing"@
        } else {
            "ac-console-root"@
        }),
{
    if resizing {
        "ac-console-root ac-console-root-resizing"
    } else {
        "ac-console-root"
    }
}

/// The classes of the sidebar: hidden, closing, or shown.
pub fn sidebar_class(show: bool, shutting_down: bool) -> (r: &'static str)
    ensures
        r@ == (if !show {
            "ac-sidebar premium-sidebar ac-sidebar-hidden"@
        } else if shutting_down {
            "ac-sidebar premium-sidebar ac-sidebar-shutting"@
        } else {
            "ac-sidebar premium-sidebar"@
        }),
{
    if !show {
        "ac-sidebar premium-sidebar ac-sidebar-hidden"
    } else if shutting_down {
        "ac-sidebar premium-sidebar ac-sidebar-shutting"
    } else {
        "ac-sidebar premium-sidebar"
    }
}

/// The classes of the centre panel: closing, shown, or hidden.
pub fn center_class(show: bool, shutting_down: bool) -> (r: &'static str)
    ensures
        r@ == (if show && shutting_down {
            "ac-center premium-panel ac-center-shutting"@
        } else if show {
            "ac-center premium-panel"@
        } else {
            "ac-center premium-panel ac-center-hidden"@
        }),
{
    if show && shutting_down {
        "ac-center premium-panel ac-center-shutting"
    } else if show {
        "ac-center premium-panel"
    } else {
        "ac-center premium-panel ac-center-hidden"
    }
}

/// Whether the centre panel takes room: shown and not closing (while it
/// closes, the chat already fills the space).
pub open spec fn center_open(show_center: bool, center_shutting_down: bool) -> bool {
    show_center && !center_shutting_down
}

/// The classes of the chat: hidden; expanded when it is alone (with room for
/// the window's title bar when the window draws none); its own width beside
/// the centre panel; expanded beside the sidebar only.
pub open spec fn chat_class_of(
    show_chat: bool,
    show_sidebar: bool,
    center_open: bool,
    titlebar_spaced: bool,
) -> Seq<char> {
    if !show_chat {
        "ac-chat premium-chat ac-chat-hidden"@
    } else if !show_sidebar && !center_open {
        if titlebar_spaced {
            "ac-chat premium-chat ac-chat-expanded ac-chat-titlebar-spaced"@
        } else {
            "ac-chat premium-chat ac-chat-expanded"@
        }
    } else if center_open {
        "ac-chat premium-chat"@
    } else {
        "ac-chat premium-chat ac-chat-expanded"@
    }
}

/// The classes of the chat.
pub fn chat_class(show_chat: bool, show_sidebar: bool, center_open: bool, titlebar_spaced: bool) -> (r: &'static str)
    ensures
        r@ == chat_class_of(show_chat, show_sidebar, center_open, titlebar_spaced),
{
    if !show_chat {
        "ac-chat premium-chat ac-chat-hidden"
    } else if !show_sidebar && !center_open {
        if titlebar_spaced {
            "ac-chat premium-chat ac-chat-expanded ac-chat-titlebar-spaced"
        } else {
            "ac-chat premium-chat ac-chat-expanded"
        }
    } else if center_open {
        "ac-chat premium-chat"
    } else {
        "ac-chat premium-chat ac-chat-expanded"
    }
}

/// The classes of the chat's aside: the chat's, and a mark while the model
/// menu is open (so that it is not clipped).
pub fn chat_aside_class(chat_class: &str, model_sheet_open: bool) -> (r: String)
    ensures
        r@ == chat_class@ + (if model_sheet_open {
            " ac-chat-menus-open"@
        } else {
            seq![]
        }),
{
    let mut out = chat_class.to_string();
    if model_sheet_open {
        out.append(" ac-chat-menus-open");
    }
    assert(out@ =~= chat_class@ + (if model_sheet_open {
        " ac-chat-menus-open"@
    } else {
        seq![]
    }));
    out
}

// ---------------------------------------------------------------------------
// The web title bar
// ---------------------------------------------------------------------------

/// The texts and the state of the title bar's panel switches.
pub struct TitlebarLabels {
    pub sidebar_on: bool,
    pub chat_on: bool,
    pub center_on: bool,
    pub sidebar_title: &'static str,
    pub center_title: &'static str,
    pub terminal_title: &'static str,
    pub chat_title: &'static str,
    pub reveal_class: &'static str,
    /// The centre switch only works while the chat is shown.
    pub center_enabled: bool,
}

/// The title bar's switches: the sidebar counts as shown unless it is
/// closing; the dock stays pinned while both side panels are hidden.
pub fn titlebar_labels(
    show_sidebar: bool,
    sidebar_shutting_down: bool,
    show_center: bool,
    show_terminal: bool,
    show_chat: bool,
) -> (r: TitlebarLabels)
    ensures
        r.sidebar_on == (show_sidebar && !sidebar_shutting_down),
        r.chat_on == show_chat,
        r.center_on == show_center,
        r.sidebar_title@ == (if r.sidebar_on {
            "隐藏左边栏"@
        } else {
            "显示左边栏"@
        }),
        r.center_title@ == (if show_center {
            "聊天栏往左覆盖中间栏"@
        } else {
            "聊天栏往右收缩拉出中间栏"@
        }),
        r.terminal_title@ == (if show_terminal {
            "隐藏终端"@
        } else {
            "显示终端"@
        }),
        r.chat_title@ == (if show_chat {
            "隐藏右边聊天栏"@
        } else {
            "显示右边聊天栏"@
        }),
        r.reveal_class@ == (if !r.sidebar_on && !show_chat {
            "ac-web-titlebar-reveal ac-web-titlebar-reveal--dock is-pinned"@
        } else {
            "ac-web-titlebar-reveal ac-web-titlebar-reveal--dock"@
        }),
        r.center_enabled == show_chat,
{
    let sidebar_on = show_sidebar && !sidebar_shutting_down;
    TitlebarLabels {
        sidebar_on,
        chat_on: show_chat,
        center_on: show_center,
        sidebar_title: if sidebar_on { "隐藏左边栏" } else { "显示左边栏" },
        center_title: if show_center { "聊天栏往左覆盖中间栏" } else { "聊天栏往右收缩拉出中间栏" },
        terminal_title: if show_terminal { "隐藏终端" } else { "显示终端" },
        chat_title: if show_chat { "隐藏右边聊天栏" } else { "显示右边聊天栏" },
        reveal_class: if !sidebar_on && !show_chat {
            "ac-web-titlebar-reveal ac-web-titlebar-reveal--dock is-pinned"
        } else {
            "ac-web-titlebar-reveal ac-web-titlebar-reveal--dock"
        },
        center_enabled: show_chat,
    }
}

/// What a click on the sidebar switch does.
#[derive(Debug, Clone, Copy, PartialEq, Eq, Structural)]
pub enum SidebarSwitch {
    /// Nothing: the sidebar is already closing.
    Ignore,
    /// Start closing: mark it closing, shrink it, then hide it once the
    /// animation has run.
    StartClosing,
    /// Show it.
    Open,
}

/// What a click on the sidebar switch does.
pub fn sidebar_switch(show_sidebar: bool, sidebar_shutting_down: bool) -> (r: SidebarSwitch)
    ensures
        r == (if show_sidebar {
            if sidebar_shutting_down {
                SidebarSwitch::Ignore
            } else {
                SidebarSwitch::StartClosing
            }
        } else {
            SidebarSwitch::Open
        }),
{
    if show_sidebar {
        if sidebar_shutting_down {
            SidebarSwitch::Ignore
        } else {
            SidebarSwitch::StartClosing
        }
    } else {
        SidebarSwitch::Open
    }
}

/// The chat and its history after a click on the chat switch: hiding the
/// chat also closes its history.
pub fn chat_switch(show_chat: bool, history_open: bool) -> (r: (bool, bool))
    ensures
        r.0 == !show_chat,
        r.1 == (if show_chat {
            false
        } else {
            history_open
        }),
{
    let next = !show_chat;
    (next, if !next { false } else { history_open })
}

/// The centre panel after a click on its switch: it flips only while the
/// chat is shown.
pub fn center_switch(show_chat: bool, show_center: bool) -> (r: bool)
    ensures
        r == (if show_chat {
            !show_center
        } else {
            show_center
        }),
{
    if show_chat {
        !show_center
    } else {
        show_center
    }
}

} // verus!
