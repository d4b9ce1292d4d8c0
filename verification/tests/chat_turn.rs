use pusa_ui::chat::{welcome_chat_messages, ThinkingStatus, UiAgentThinking, UiChatMessage};
use pusa_ui::chat_turn::{
    compose_send_text, finish_chat_turn, merge_pasted_text, remove_attachment, start_chat_turn,
    PendingAttachment,
};

fn image(name: &str) -> PendingAttachment {
    PendingAttachment { id: 0, name: name.to_string(), image_data_url: Some(format!("data:image/png;base64,{name}")) }
}

fn file(name: &str) -> PendingAttachment {
    PendingAttachment { id: 0, name: name.to_string(), image_data_url: None }
}

fn thinking() -> UiAgentThinking {
    UiAgentThinking {
        status: ThinkingStatus::Done,
        expanded: false,
        steps: Vec::new(),
        total_duration_ms: None,
        dismissed: false,
    }
}

#[test]
fn send_text_names_non_image_attachments() {
    assert_eq!(compose_send_text("hi".into(), &vec![]), "hi");
    assert_eq!(compose_send_text("hi".into(), &vec![file("a.rs"), image("p"), file("b.md")]), "hi\n\n[附件: a.rs, b.md]");
    assert_eq!(compose_send_text(String::new(), &vec![file("a.rs")]), "[附件: a.rs]");
    assert_eq!(compose_send_text(String::new(), &vec![image("p")]), "请查看附图。");
    assert_eq!(compose_send_text(String::new(), &vec![]), "");
}

#[test]
fn empty_draft_without_attachments_sends_nothing() {
    let mut t = welcome_chat_messages();
    assert!(start_chat_turn("   \n", vec![], &mut t, "gpt").is_none());
    assert_eq!(t.len(), 1);
}

#[test]
fn turn_history_skips_unsaved_and_empty_answers() {
    let mut t = vec![
        UiChatMessage::Assistant { id: None, content: "welcome".into(), agent_run_id: None, thinking: thinking() },
        UiChatMessage::User { id: Some("u1".into()), content: "q1".into(), attachments: vec![] },
        UiChatMessage::Assistant { id: Some("a1".into()), content: "a1 text".into(), agent_run_id: None, thinking: thinking() },
        UiChatMessage::Assistant { id: None, content: "  ".into(), agent_run_id: Some("r".into()), thinking: thinking() },
        UiChatMessage::Assistant { id: None, content: "run answer".into(), agent_run_id: Some("r2".into()), thinking: thinking() },
    ];
    let turn = start_chat_turn("  next question ", vec![image("shot"), file("notes.txt")], &mut t, " gpt-4o ").unwrap();
    let roles: Vec<&str> = turn.history.iter().map(|d| d.role.as_str()).collect();
    assert_eq!(roles, vec!["user", "assistant", "assistant", "user"]);
    assert_eq!(turn.history[1].content, "a1 text");
    assert_eq!(turn.history[2].content, "run answer");
    let last = turn.history.last().unwrap();
    assert_eq!(last.content, "next question\n\n[附件: notes.txt]");
    assert_eq!(last.images, vec!["data:image/png;base64,shot".to_string()]);
    assert_eq!(turn.model.as_deref(), Some("gpt-4o"));
    assert_eq!(t.len(), 7);
    match &t[5] {
        UiChatMessage::User { id, content, attachments } => {
            assert!(id.is_none());
            assert_eq!(content, "next question\n\n[附件: notes.txt]");
            assert_eq!(attachments, &vec!["shot".to_string(), "notes.txt".to_string()]);
        }
        _ => panic!("expected the question"),
    }
    match &t[6] {
        UiChatMessage::Assistant { id, content, thinking, .. } => {
            assert!(id.is_none());
            assert!(content.is_empty());
            assert_eq!(thinking.status, ThinkingStatus::Running);
            assert!(!thinking.dismissed);
        }
        _ => panic!("expected the running answer"),
    }
}

#[test]
fn turn_without_model_has_none() {
    let mut t = Vec::new();
    let turn = start_chat_turn("hello", vec![], &mut t, "  ").unwrap();
    assert!(turn.model.is_none());
    assert_eq!(t.len(), 2);
}

#[test]
fn stopped_turn_drops_running_answer() {
    let mut t = Vec::new();
    let _ = start_chat_turn("hello", vec![], &mut t, "m");
    finish_chat_turn(&mut t, true, Some("aborted".into()), None);
    assert_eq!(t.len(), 1);
    assert!(matches!(&t[0], UiChatMessage::User { .. }));
}

#[test]
fn failed_turn_shows_error_in_answer() {
    let mut t = Vec::new();
    let _ = start_chat_turn("hello", vec![], &mut t, "m");
    finish_chat_turn(&mut t, false, Some("网络错误".into()), None);
    match &t[1] {
        UiChatMessage::Assistant { content, thinking, .. } => {
            assert_eq!(content, "❌ 网络错误");
            assert!(thinking.dismissed);
        }
        _ => panic!("expected the answer"),
    }
}

#[test]
fn stream_error_is_appended_after_partial_answer() {
    let mut t = vec![UiChatMessage::Assistant {
        id: None,
        content: "partial".into(),
        agent_run_id: None,
        thinking: thinking(),
    }];
    finish_chat_turn(&mut t, true, Some("ignored".into()), Some("quota".into()));
    assert_eq!(t.len(), 0);
    let mut t = vec![UiChatMessage::Assistant {
        id: None,
        content: "partial".into(),
        agent_run_id: None,
        thinking: thinking(),
    }];
    finish_chat_turn(&mut t, false, Some("ignored".into()), Some("quota".into()));
    match &t[0] {
        UiChatMessage::Assistant { content, .. } => assert_eq!(content, "partial\n❌ quota"),
        _ => panic!("expected the answer"),
    }
    let mut ok = vec![UiChatMessage::User { id: None, content: "q".into(), attachments: vec![] }];
    finish_chat_turn(&mut ok, false, None, None);
    assert_eq!(ok.len(), 1);
}

#[test]
fn pasted_text_is_spaced_from_draft() {
    let mut d = String::from("look");
    merge_pasted_text(&mut d, "here");
    assert_eq!(d, "look here");
    let mut d = String::from("line\n");
    merge_pasted_text(&mut d, "x");
    assert_eq!(d, "line\nx");
    let mut d = String::new();
    merge_pasted_text(&mut d, "x");
    assert_eq!(d, "x");
}

#[test]
fn removing_an_attachment_keeps_the_others() {
    let mut atts = vec![
        PendingAttachment { id: 1, name: "a".into(), image_data_url: None },
        PendingAttachment { id: 2, name: "b".into(), image_data_url: None },
        PendingAttachment { id: 3, name: "c".into(), image_data_url: None },
    ];
    remove_attachment(&mut atts, 2);
    let names: Vec<&str> = atts.iter().map(|a| a.name.as_str()).collect();
    assert_eq!(names, vec!["a", "c"]);
    remove_attachment(&mut atts, 9);
    assert_eq!(atts.len(), 2);
}
