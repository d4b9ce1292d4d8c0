use pusa_ui::layout::{
    center_class, center_switch, chat_aside_class, chat_class, chat_switch, console_class, sidebar_class,
    sidebar_switch, titlebar_labels, SidebarSwitch,
};

#[test]
fn panel_classes_follow_visibility() {
    assert_eq!(console_class(true), "ac-console-root ac-console-root-resizing");
    assert_eq!(console_class(false), "ac-console-root");
    assert_eq!(sidebar_class(false, true), "ac-sidebar premium-sidebar ac-sidebar-hidden");
    assert_eq!(sidebar_class(true, true), "ac-sidebar premium-sidebar ac-sidebar-shutting");
    assert_eq!(sidebar_class(true, false), "ac-sidebar premium-sidebar");
    assert_eq!(center_class(true, true), "ac-center premium-panel ac-center-shutting");
    assert_eq!(center_class(true, false), "ac-center premium-panel");
    assert_eq!(center_class(false, true), "ac-center premium-panel ac-center-hidden");
}

#[test]
fn chat_class_expands_when_alone() {
    assert_eq!(chat_class(false, true, true, true), "ac-chat premium-chat ac-chat-hidden");
    assert_eq!(chat_class(true, false, false, true), "ac-chat premium-chat ac-chat-expanded ac-chat-titlebar-spaced");
    assert_eq!(chat_class(true, false, false, false), "ac-chat premium-chat ac-chat-expanded");
    assert_eq!(chat_class(true, true, true, true), "ac-chat premium-chat");
    assert_eq!(chat_class(true, true, false, true), "ac-chat premium-chat ac-chat-expanded");
    assert_eq!(chat_aside_class("ac-chat premium-chat", true), "ac-chat premium-chat ac-chat-menus-open");
    assert_eq!(chat_aside_class("ac-chat premium-chat", false), "ac-chat premium-chat");
}

#[test]
fn titlebar_labels_follow_panels() {
    let l = titlebar_labels(true, false, true, false, true);
    assert!(l.sidebar_on);
    assert_eq!(l.sidebar_title, "隐藏左边栏");
    assert_eq!(l.center_title, "聊天栏往左覆盖中间栏");
    assert_eq!(l.terminal_title, "显示终端");
    assert_eq!(l.chat_title, "隐藏右边聊天栏");
    assert_eq!(l.reveal_class, "ac-web-titlebar-reveal ac-web-titlebar-reveal--dock");
    let closing = titlebar_labels(true, true, false, true, false);
    assert!(!closing.sidebar_on);
    assert_eq!(closing.sidebar_title, "显示左边栏");
    assert_eq!(closing.reveal_class, "ac-web-titlebar-reveal ac-web-titlebar-reveal--dock is-pinned");
    assert!(!closing.center_enabled);
}

#[test]
fn titlebar_switches() {
    assert_eq!(sidebar_switch(true, false), SidebarSwitch::StartClosing);
    assert_eq!(sidebar_switch(true, true), SidebarSwitch::Ignore);
    assert_eq!(sidebar_switch(false, true), SidebarSwitch::Open);
    assert_eq!(chat_switch(true, true), (false, false));
    assert_eq!(chat_switch(false, true), (true, true));
    assert!(!center_switch(true, true));
    assert!(center_switch(false, true));
}
