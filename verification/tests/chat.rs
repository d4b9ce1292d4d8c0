use pusa_ui::chat::{
    chat_event_applicable, UiThinkingStep,
    is_near_bottom, STICKY_BOTTOM_PX,
    apply_chat_sse_event, stored_message_to_ui, stored_messages_to_ui, upsert_thinking_step_index,
    visible_conversation_title, welcome_chat_messages, SseEvent, StoredChatMessageDto, StepPhase,
    ThinkingStatus, ToolStatus, UiAgentThinking, UiChatMessage,
};

fn user(text: &str) -> UiChatMessage {
    UiChatMessage::User { id: None, content: text.to_string(), attachments: Vec::new() }
}

fn assistant() -> UiChatMessage {
    UiChatMessage::Assistant {
        id: None,
        content: String::new(),
        agent_run_id: None,
        thinking: UiAgentThinking {
            status: ThinkingStatus::Idle,
            expanded: false,
            steps: Vec::new(),
            total_duration_ms: None,
            dismissed: false,
        },
    }
}

fn answer(msgs: &[UiChatMessage]) -> (String, &UiAgentThinking) {
    match msgs.last().unwrap() {
        UiChatMessage::Assistant { content, thinking, .. } => (content.clone(), thinking),
        _ => panic!("last message is not an answer"),
    }
}

#[test]
fn answer_deltas_concatenate() {
    let mut msgs = vec![user("hi"), assistant()];
    let mut err = None;
    apply_chat_sse_event(SseEvent::AnswerDelta { text: "Hel".into() }, &mut msgs, &mut err);
    apply_chat_sse_event(SseEvent::Delta { text: "lo".into() }, &mut msgs, &mut err);
    assert_eq!(answer(&msgs).0, "Hello");
    assert!(err.is_none());
}

#[test]
fn steps_and_tools_are_tracked() {
    let mut msgs = vec![user("hi"), assistant()];
    let mut err = None;
    apply_chat_sse_event(SseEvent::AgentStepStart { index: 1 }, &mut msgs, &mut err);
    apply_chat_sse_event(SseEvent::ThinkingDelta { step_index: 1, text: "plan".into() }, &mut msgs, &mut err);
    apply_chat_sse_event(
        SseEvent::ToolStart { id: "t1".into(), name: "read".into(), args: "{}".into(), step_index: Some(1) },
        &mut msgs,
        &mut err,
    );
    apply_chat_sse_event(SseEvent::ToolResult { id: "t1".into(), summary: "ok".into() }, &mut msgs, &mut err);
    apply_chat_sse_event(
        SseEvent::AgentStepDone { index: 1, model_output: "done".into(), duration_ms: Some(1200) },
        &mut msgs,
        &mut err,
    );
    apply_chat_sse_event(SseEvent::AgentFinalizing, &mut msgs, &mut err);
    let (_, thinking) = answer(&msgs);
    assert_eq!(thinking.steps.len(), 1);
    assert_eq!(thinking.steps[0].index, 1);
    assert_eq!(thinking.steps[0].phase, StepPhase::Done);
    assert_eq!(thinking.steps[0].tools.len(), 1);
    assert_eq!(thinking.steps[0].tools[0].status, ToolStatus::Done);
    assert_eq!(thinking.steps[0].tools[0].summary.as_deref(), Some("ok"));
    assert_eq!(thinking.steps[0].duration_ms, Some(1200));
    assert_eq!(thinking.status, ThinkingStatus::Done);
    assert_eq!(thinking.total_duration_ms, Some(1200));
}

#[test]
fn errors_are_reported() {
    let mut msgs = vec![user("hi"), assistant()];
    let mut err = None;
    apply_chat_sse_event(SseEvent::Error { message: "boom".into() }, &mut msgs, &mut err);
    assert_eq!(err.as_deref(), Some("boom"));
    assert_eq!(msgs.len(), 2);
}

#[test]
fn persisted_turn_takes_ids() {
    let mut msgs = vec![user("hi"), assistant()];
    let mut err = None;
    apply_chat_sse_event(
        SseEvent::TurnPersisted {
            user_message_id: "u1".into(),
            assistant_message_id: "a1".into(),
            agent_run_id: "r1".into(),
        },
        &mut msgs,
        &mut err,
    );
    match &msgs[0] {
        UiChatMessage::User { id, .. } => assert_eq!(id.as_deref(), Some("u1")),
        _ => panic!("expected the question"),
    }
    match &msgs[1] {
        UiChatMessage::Assistant { id, agent_run_id, .. } => {
            assert_eq!(id.as_deref(), Some("a1"));
            assert_eq!(agent_run_id.as_deref(), Some("r1"));
        }
        _ => panic!("expected the answer"),
    }
}

#[test]
fn step_index_upsert_finds_or_adds() {
    let mut t = UiAgentThinking { status: ThinkingStatus::Idle, expanded: false, steps: Vec::new(), total_duration_ms: None, dismissed: false };
    assert_eq!(upsert_thinking_step_index(&mut t, 4), 0);
    assert_eq!(upsert_thinking_step_index(&mut t, 7), 1);
    assert_eq!(upsert_thinking_step_index(&mut t, 4), 0);
    assert_eq!(t.steps.len(), 2);
}

#[test]
fn stored_history_and_titles() {
    let msgs = vec![
        StoredChatMessageDto { id: "1".into(), role: "user".into(), content: "q".into(), agent_run_id: None },
        StoredChatMessageDto { id: "2".into(), role: "system".into(), content: "s".into(), agent_run_id: None },
        StoredChatMessageDto { id: "3".into(), role: "assistant".into(), content: "a".into(), agent_run_id: Some("r".into()) },
    ];
    let ui = stored_messages_to_ui(msgs);
    assert_eq!(ui.len(), 2);
    assert!(stored_message_to_ui(StoredChatMessageDto {
        id: "x".into(),
        role: "tool".into(),
        content: String::new(),
        agent_run_id: None
    })
    .is_none());
    assert_eq!(stored_messages_to_ui(Vec::new()).len(), welcome_chat_messages().len());
    assert_eq!(visible_conversation_title("  新会话 "), None);
    assert_eq!(visible_conversation_title(" Trip "), Some("Trip".to_string()));
}

#[test]
fn transcript_near_bottom_threshold() {
    assert_eq!(STICKY_BOTTOM_PX, 72);
    assert!(is_near_bottom(1000, 528, 400));
    assert!(!is_near_bottom(1000, 527, 400));
    assert!(is_near_bottom(300, 0, 400));
}

#[test]
fn finalizing_needs_durations_that_fit() {
    let step = |d: i64| UiThinkingStep {
        index: 0,
        phase: StepPhase::Done,
        model_text: String::new(),
        tools: Vec::new(),
        duration_ms: Some(d),
    };
    let mut msgs = vec![assistant()];
    assert!(chat_event_applicable(&msgs, &SseEvent::AgentFinalizing));
    if let UiChatMessage::Assistant { thinking, .. } = &mut msgs[0] {
        thinking.steps.push(step(i64::MAX));
        thinking.steps.push(step(1));
    }
    assert!(!chat_event_applicable(&msgs, &SseEvent::AgentFinalizing));
    assert!(chat_event_applicable(&msgs, &SseEvent::Done));
    if let UiChatMessage::Assistant { thinking, .. } = &mut msgs[0] {
        thinking.steps.pop();
        thinking.steps.push(step(-5));
    }
    assert!(chat_event_applicable(&msgs, &SseEvent::AgentFinalizing));
}
