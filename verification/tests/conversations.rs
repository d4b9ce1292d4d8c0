use pusa_ui::chat::{StoredChatMessageDto, UiChatMessage};
use pusa_ui::conversations::{
    conversation_preview, ChatHistoryState, ConversationSummaryDto, DeleteReply, DeleteStep, MESSAGE_PAGE_LIMIT,
};

fn conv(id: &str, title: &str) -> ConversationSummaryDto {
    ConversationSummaryDto { id: id.to_string(), title: title.to_string(), last_message_preview: String::new() }
}

fn ids(state: &ChatHistoryState) -> Vec<String> {
    state.conversations.iter().map(|c| c.id.clone()).collect()
}

fn stored(id: &str, role: &str, content: &str) -> StoredChatMessageDto {
    StoredChatMessageDto {
        id: id.to_string(),
        role: role.to_string(),
        content: content.to_string(),
        agent_run_id: None,
    }
}

#[test]
fn history_starts_on_default_with_greeting() {
    let s = ChatHistoryState::new();
    assert_eq!(s.active_id, "default");
    assert!(s.conversations.is_empty());
    assert_eq!(s.messages.len(), 1);
    assert!(matches!(&s.messages[0], UiChatMessage::Assistant { id: None, .. }));
    assert!(!s.title_editing);
    assert_eq!(s.error, None);
    assert_eq!(MESSAGE_PAGE_LIMIT, 200);
}

#[test]
fn created_conversation_goes_first_once() {
    let mut s = ChatHistoryState::new();
    s.conversations = vec![conv("a", "A"), conv("b", "B"), conv("a", "A2")];
    s.title_editing = true;
    s.title_editing_id = Some("b".into());
    s.title_draft = "x".into();
    s.error = Some("old".into());
    s.apply_created(Ok(conv("a", "fresh")));
    assert_eq!(ids(&s), vec!["a", "b"]);
    assert_eq!(s.conversations[0].title, "fresh");
    assert_eq!(s.active_id, "a");
    assert!(!s.title_editing);
    assert_eq!(s.title_editing_id, None);
    assert_eq!(s.title_draft, "");
    assert_eq!(s.error, None);
}

#[test]
fn failed_create_only_shows_error() {
    let mut s = ChatHistoryState::new();
    s.conversations = vec![conv("a", "A")];
    s.apply_created(Err("offline".into()));
    assert_eq!(ids(&s), vec!["a"]);
    assert_eq!(s.active_id, "default");
    assert_eq!(s.error.as_deref(), Some("offline"));
}

#[test]
fn rename_replaces_first_match_only() {
    let mut s = ChatHistoryState::new();
    s.conversations = vec![conv("a", "A"), conv("b", "B"), conv("b", "B2")];
    s.title_editing = true;
    s.apply_renamed(Ok(conv("b", "Renamed")));
    assert_eq!(ids(&s), vec!["a", "b", "b"]);
    assert_eq!(s.conversations[1].title, "Renamed");
    assert_eq!(s.conversations[2].title, "B2");
    assert!(!s.title_editing);
    s.apply_renamed(Ok(conv("zzz", "none")));
    assert_eq!(ids(&s), vec!["a", "b", "b"]);
    s.apply_renamed(Err("bad".into()));
    assert_eq!(s.error.as_deref(), Some("bad"));
}

#[test]
fn begin_title_edit_offers_own_title() {
    let mut s = ChatHistoryState::new();
    s.conversations = vec![conv("a", "  Trip plan  "), conv("b", "新会话")];
    s.begin_title_edit("a");
    assert!(s.title_editing);
    assert_eq!(s.title_editing_id.as_deref(), Some("a"));
    assert_eq!(s.title_draft, "Trip plan");
    s.begin_title_edit("b");
    assert_eq!(s.title_draft, "");
    s.begin_title_edit("missing");
    assert_eq!(s.title_draft, "");
    s.cancel_title_edit();
    assert!(!s.title_editing);
    assert_eq!(s.title_editing_id, None);
}

#[test]
fn opening_a_conversation_shows_its_messages() {
    let mut s = ChatHistoryState::new();
    let scroll = s.apply_opened(
        "c1".into(),
        Ok(vec![stored("m1", "user", "hi"), stored("m2", "system", "x"), stored("m3", "assistant", "yo")]),
    );
    assert!(scroll);
    assert_eq!(s.active_id, "c1");
    assert_eq!(s.messages.len(), 2);
    assert!(matches!(&s.messages[0], UiChatMessage::User { content, .. } if content == "hi"));
    let scroll = s.apply_opened("c2".into(), Err("gone".into()));
    assert!(!scroll);
    assert_eq!(s.active_id, "c1");
    assert_eq!(s.error.as_deref(), Some("gone"));
}

#[test]
fn initial_load_opens_first_or_default() {
    let mut s = ChatHistoryState::new();
    let next = s.apply_initial_list(Ok(vec![conv("x", "X"), conv("y", "Y")]));
    assert_eq!(next.as_deref(), Some("x"));
    assert_eq!(s.active_id, "x");
    assert!(s.apply_initial_messages(Ok(vec![stored("m", "assistant", "hello")])));
    assert_eq!(s.messages.len(), 1);
    let mut e = ChatHistoryState::new();
    assert_eq!(e.apply_initial_list(Ok(vec![])).as_deref(), Some("default"));
    assert!(!e.apply_initial_messages(Err("down".into())));
    assert_eq!(e.error.as_deref(), Some("down"));
    let mut f = ChatHistoryState::new();
    assert_eq!(f.apply_initial_list(Err("no list".into())), None);
    assert_eq!(f.error.as_deref(), Some("no list"));
}

#[test]
fn deleting_the_open_conversation_opens_the_next() {
    let mut s = ChatHistoryState::new();
    s.conversations = vec![conv("a", "A"), conv("b", "B")];
    s.active_id = "a".into();
    s.title_editing = true;
    let (flow, step) = s.begin_delete("a".into());
    assert!(flow.was_active);
    assert!(matches!(step, DeleteStep::Delete(ref id) if id == "a"));
    let (step, scroll) = s.delete_step(&flow, DeleteReply::Deleted(Ok(())));
    assert!(matches!(step, DeleteStep::List));
    assert!(!scroll);
    let (step, _) = s.delete_step(&flow, DeleteReply::Listed(Ok(vec![conv("b", "B")])));
    assert!(matches!(step, DeleteStep::Load(ref id) if id == "b"));
    assert_eq!(s.active_id, "b");
    assert_eq!(ids(&s), vec!["b"]);
    let (step, scroll) = s.delete_step(&flow, DeleteReply::Loaded(Ok(vec![stored("m", "user", "q")])));
    assert!(matches!(step, DeleteStep::Done));
    assert!(scroll);
    assert!(!s.title_editing);
    assert_eq!(s.error, None);
}

#[test]
fn deleting_the_last_conversation_creates_one() {
    let mut s = ChatHistoryState::new();
    s.conversations = vec![conv("a", "A")];
    s.active_id = "a".into();
    let (flow, _) = s.begin_delete("a".into());
    let (step, _) = s.delete_step(&flow, DeleteReply::Listed(Ok(vec![])));
    assert!(matches!(step, DeleteStep::Create));
    let (step, _) = s.delete_step(&flow, DeleteReply::Created(Ok(conv("n", "新会话"))));
    assert!(matches!(step, DeleteStep::Done));
    assert_eq!(ids(&s), vec!["n"]);
    assert_eq!(s.active_id, "n");
}

#[test]
fn failed_create_after_delete_ends_without_error() {
    let mut s = ChatHistoryState::new();
    s.conversations = vec![conv("a", "A")];
    s.active_id = "a".into();
    let (flow, _) = s.begin_delete("a".into());
    let _ = s.delete_step(&flow, DeleteReply::Listed(Ok(vec![])));
    let (step, _) = s.delete_step(&flow, DeleteReply::Created(Err("nope".into())));
    assert!(matches!(step, DeleteStep::Done));
    assert_eq!(s.error, None);
    assert_eq!(ids(&s), vec!["a"]);
}

#[test]
fn deleting_another_conversation_keeps_the_open_one() {
    let mut s = ChatHistoryState::new();
    s.conversations = vec![conv("a", "A"), conv("b", "B")];
    s.active_id = "a".into();
    let (flow, _) = s.begin_delete("b".into());
    assert!(!flow.was_active);
    let (step, _) = s.delete_step(&flow, DeleteReply::Listed(Ok(vec![conv("a", "A")])));
    assert!(matches!(step, DeleteStep::Done));
    assert_eq!(s.active_id, "a");
    assert_eq!(ids(&s), vec!["a"]);
    let (step, _) = s.delete_step(&flow, DeleteReply::Deleted(Err("denied".into())));
    assert!(matches!(step, DeleteStep::Done));
    assert_eq!(s.error.as_deref(), Some("denied"));
}

#[test]
fn history_preview_prefers_own_title() {
    let mut c = conv("a", "Trip");
    c.last_message_preview = "last words".into();
    assert_eq!(conversation_preview(&c), "Trip");
    let mut d = conv("b", "新会话");
    d.last_message_preview = "last words".into();
    assert_eq!(conversation_preview(&d), "last words");
    d.last_message_preview = "   ".into();
    assert_eq!(conversation_preview(&d), "暂无消息");
}
