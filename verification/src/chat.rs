//! The chat transcript and the stream of agent events that updates it.
//!
//! Each event of the server's stream is applied to the transcript by
//! [`apply_chat_sse_event`]; its contract is the transition function
//! [`apply_event`] over the views of the messages.
use vstd::prelude::*;
use crate::text::{copy_str, trim, trim_str};

verus! {

// ---------------------------------------------------------------------------
// Types and their views
// ---------------------------------------------------------------------------

/// The status of the agent's reasoning panel under an answer.
#[derive(Clone, Copy, PartialEq, Eq, Structural, Debug)]
pub enum ThinkingStatus {
    Idle,
    Running,
    Done,
    Error,
}

/// The phase of one reasoning step.
#[derive(Clone, Copy, PartialEq, Eq, Structural, Debug)]
pub enum StepPhase {
    Thinking,
    Observing,
    Done,
}

/// The status of one tool call.
#[derive(Clone, Copy, PartialEq, Eq, Structural, Debug)]
pub enum ToolStatus {
    Running,
    Done,
}

/// One tool call inside a reasoning step.
#[derive(Debug)]
pub struct UiThinkingTool {
    pub id: String,
    pub name: String,
    pub args: String,
    pub summary: Option<String>,
    pub status: ToolStatus,
}

/// One reasoning step of the agent.
#[derive(Debug)]
pub struct UiThinkingStep {
    pub index: usize,
    pub phase: StepPhase,
    pub model_text: String,
    pub tools: Vec<UiThinkingTool>,
    pub duration_ms: Option<i64>,
}

/// The reasoning panel of an assistant message.
#[derive(Debug)]
pub struct UiAgentThinking {
    pub status: ThinkingStatus,
    pub expanded: bool,
    pub steps: Vec<UiThinkingStep>,
    pub total_duration_ms: Option<i64>,
    /// Set when the turn failed: the panel is no longer offered.
    pub dismissed: bool,
}

/// One message of the transcript.
#[derive(Debug)]
pub enum UiChatMessage {
    User { id: Option<String>, content: String, attachments: Vec<String> },
    Assistant {
        id: Option<String>,
        content: String,
        agent_run_id: Option<String>,
        thinking: UiAgentThinking,
    },
}

/// An event of the chat stream.
#[derive(Debug)]
pub enum SseEvent {
    AgentStepStart { index: usize },
    AgentThinking { index: usize },
    ThinkingDelta { step_index: usize, text: String },
    AnswerDelta { text: String },
    Delta { text: String },
    AgentObserving { index: usize },
    ToolStart { id: String, name: String, args: String, step_index: Option<usize> },
    ToolResult { id: String, summary: String },
    AgentStepDone { index: usize, model_output: String, duration_ms: Option<i64> },
    AgentFinalizing,
    TurnPersisted { user_message_id: String, assistant_message_id: String, agent_run_id: String },
    Error { message: String },
    Done,
}

/// The text of an optional string.
pub open spec fn opt_view(o: Option<String>) -> Option<Seq<char>> {
    match o {
        Some(s) => Some(s@),
        None => None,
    }
}

pub struct ToolView {
    pub id: Seq<char>,
    pub name: Seq<char>,
    pub args: Seq<char>,
    pub summary: Option<Seq<char>>,
    pub status: ToolStatus,
}

pub struct StepView {
    pub index: usize,
    pub phase: StepPhase,
    pub model_text: Seq<char>,
    pub tools: Seq<ToolView>,
    pub duration_ms: Option<i64>,
}

pub struct ThinkingView {
    pub status: ThinkingStatus,
    pub expanded: bool,
    pub steps: Seq<StepView>,
    pub total_duration_ms: Option<i64>,
    pub dismissed: bool,
}

pub enum MessageView {
    User { id: Option<Seq<char>>, content: Seq<char>, attachments: Seq<Seq<char>> },
    Assistant {
        id: Option<Seq<char>>,
        content: Seq<char>,
        agent_run_id: Option<Seq<char>>,
        thinking: ThinkingView,
    },
}

pub enum EventView {
    AgentStepStart { index: usize },
    AgentThinking { index: usize },
    ThinkingDelta { step_index: usize, text: Seq<char> },
    AnswerDelta { text: Seq<char> },
    Delta { text: Seq<char> },
    AgentObserving { index: usize },
    ToolStart { id: Seq<char>, name: Seq<char>, args: Seq<char>, step_index: Option<usize> },
    ToolResult { id: Seq<char>, summary: Seq<char> },
    AgentStepDone { index: usize, model_output: Seq<char>, duration_ms: Option<i64> },
    AgentFinalizing,
    TurnPersisted {
        user_message_id: Seq<char>,
        assistant_message_id: Seq<char>,
        agent_run_id: Seq<char>,
    },
    Error { message: Seq<char> },
    Done,
}

impl View for UiThinkingTool {
    type V = ToolView;

    open spec fn view(&self) -> ToolView {
        ToolView {
            id: self.id@,
            name: self.name@,
            args: self.args@,
            summary: opt_view(self.summary),
            status: self.status,
        }
    }
}

pub open spec fn tools_view(tools: Seq<UiThinkingTool>) -> Seq<ToolView> {
    tools.map_values(|t: UiThinkingTool| t@)
}

impl View for UiThinkingStep {
    type V = StepView;

    open spec fn view(&self) -> StepView {
        StepView {
            index: self.index,
            phase: self.phase,
            model_text: self.model_text@,
            tools: tools_view(self.tools@),
            duration_ms: self.duration_ms,
        }
    }
}

pub open spec fn steps_view(steps: Seq<UiThinkingStep>) -> Seq<StepView> {
    steps.map_values(|s: UiThinkingStep| s@)
}

impl View for UiAgentThinking {
    type V = ThinkingView;

    open spec fn view(&self) -> ThinkingView {
        ThinkingView {
            status: self.status,
            expanded: self.expanded,
            steps: steps_view(self.steps@),
            total_duration_ms: self.total_duration_ms,
            dismissed: self.dismissed,
        }
    }
}

impl View for UiChatMessage {
    type V = MessageView;

    open spec fn view(&self) -> MessageView {
        match self {
            UiChatMessage::User { id, content, attachments } => MessageView::User {
                id: opt_view(*id),
                content: content@,
                attachments: attachments@.map_values(|a: String| a@),
            },
            UiChatMessage::Assistant { id, content, agent_run_id, thinking } =>
                MessageView::Assistant {
                id: opt_view(*id),
                content: content@,
                agent_run_id: opt_view(*agent_run_id),
                thinking: thinking@,
            },
        }
    }
}

pub open spec fn messages_view(msgs: Seq<UiChatMessage>) -> Seq<MessageView> {
    msgs.map_values(|m: UiChatMessage| m@)
}

impl View for SseEvent {
    type V = EventView;

    open spec fn view(&self) -> EventView {
        match self {
            SseEvent::AgentStepStart { index } => EventView::AgentStepStart { index: *index },
            SseEvent::AgentThinking { index } => EventView::AgentThinking { index: *index },
            SseEvent::ThinkingDelta { step_index, text } => EventView::ThinkingDelta {
                step_index: *step_index,
                text: text@,
            },
            SseEvent::AnswerDelta { text } => EventView::AnswerDelta { text: text@ },
            SseEvent::Delta { text } => EventView::Delta { text: text@ },
            SseEvent::AgentObserving { index } => EventView::AgentObserving { index: *index },
            SseEvent::ToolStart { id, name, args, step_index } => EventView::ToolStart {
                id: id@,
                name: name@,
                args: args@,
                step_index: *step_index,
            },
            SseEvent::ToolResult { id, summary } => EventView::ToolResult {
                id: id@,
                summary: summary@,
            },
            SseEvent::AgentStepDone { index, model_output, duration_ms } =>
                EventView::AgentStepDone {
                index: *index,
                model_output: model_output@,
                duration_ms: *duration_ms,
            },
            SseEvent::AgentFinalizing => EventView::AgentFinalizing,
            SseEvent::TurnPersisted { user_message_id, assistant_message_id, agent_run_id } =>
                EventView::TurnPersisted {
                user_message_id: user_message_id@,
                assistant_message_id: assistant_message_id@,
                agent_run_id: agent_run_id@,
            },
            SseEvent::Error { message } => EventView::Error { message: message@ },
            SseEvent::Done => EventView::Done,
        }
    }
}

// ---------------------------------------------------------------------------
// The transition function
// ---------------------------------------------------------------------------

/// The reasoning panel of a fresh answer.
pub open spec fn idle_thinking() -> ThinkingView {
    ThinkingView {
        status: ThinkingStatus::Idle,
        expanded: false,
        steps: seq![],
        total_duration_ms: None,
        dismissed: false,
    }
}

/// A step that was just announced.
pub open spec fn new_step(index: usize) -> StepView {
    StepView {
        index,
        phase: StepPhase::Thinking,
        model_text: seq![],
        tools: seq![],
        duration_ms: None,
    }
}

/// Position of the first step numbered `index`, searching from `i`.
pub open spec fn step_pos_from(steps: Seq<StepView>, index: usize, i: int) -> Option<int>
    decreases steps.len() - i,
{
    if i < 0 || i >= steps.len() {
        None
    } else if steps[i].index == index {
        Some(i)
    } else {
        step_pos_from(steps, index, i + 1)
    }
}

/// The thinking panel after making sure a step numbered `index` exists, and
/// that step's position: the first such step, or a new one at the end.
pub open spec fn upsert_step(t: ThinkingView, index: usize) -> (ThinkingView, int) {
    match step_pos_from(t.steps, index, 0) {
        Some(p) => (t, p),
        None => (ThinkingView { steps: t.steps.push(new_step(index)), ..t }, t.steps.len() as int),
    }
}

/// `t` with step `p` replaced.
pub open spec fn set_step(t: ThinkingView, p: int, s: StepView) -> ThinkingView {
    ThinkingView { steps: t.steps.update(p, s), ..t }
}

/// Position of the last assistant message strictly before `k`.
pub open spec fn last_assistant_before(msgs: Seq<MessageView>, k: int) -> Option<int>
    decreases k,
{
    if k <= 0 {
        None
    } else if msgs[k - 1] is Assistant {
        Some(k - 1)
    } else {
        last_assistant_before(msgs, k - 1)
    }
}

/// Position of the last assistant message.
pub open spec fn last_assistant(msgs: Seq<MessageView>) -> Option<int> {
    last_assistant_before(msgs, msgs.len() as int)
}

/// Position of the last assistant message not yet saved (without an id).
pub open spec fn last_unsaved_assistant_before(msgs: Seq<MessageView>, k: int) -> Option<int>
    decreases k,
{
    if k <= 0 {
        None
    } else if msgs[k - 1] is Assistant && msgs[k - 1]->Assistant_id is None {
        Some(k - 1)
    } else {
        last_unsaved_assistant_before(msgs, k - 1)
    }
}

/// Position of the last user message not yet saved (without an id).
pub open spec fn last_unsaved_user_before(msgs: Seq<MessageView>, k: int) -> Option<int>
    decreases k,
{
    if k <= 0 {
        None
    } else if msgs[k - 1] is User && msgs[k - 1]->User_id is None {
        Some(k - 1)
    } else {
        last_unsaved_user_before(msgs, k - 1)
    }
}

/// The last assistant message with its content and thinking panel replaced by
/// `f` of the old ones; the transcript is unchanged when it has no answer.
pub open spec fn update_last_assistant(
    msgs: Seq<MessageView>,
    f: spec_fn(Seq<char>, ThinkingView) -> (Seq<char>, ThinkingView),
) -> Seq<MessageView> {
    match last_assistant(msgs) {
        Some(k) => match msgs[k] {
            MessageView::Assistant { id, content, agent_run_id, thinking } => {
                let (c, t) = f(content, thinking);
                msgs.update(
                    k,
                    MessageView::Assistant { id, content: c, agent_run_id, thinking: t },
                )
            },
            _ => msgs,
        },
        None => msgs,
    }
}

/// The step at `p` with `text` appended to what the model wrote.
pub open spec fn append_step_text(s: StepView, text: Seq<char>) -> StepView {
    StepView { model_text: s.model_text + text, ..s }
}

/// Position of the first tool with id `id` in `tools`, searching from `i`.
pub open spec fn tool_pos_from(tools: Seq<ToolView>, id: Seq<char>, i: int) -> Option<int>
    decreases tools.len() - i,
{
    if i < 0 || i >= tools.len() {
        None
    } else if tools[i].id == id {
        Some(i)
    } else {
        tool_pos_from(tools, id, i + 1)
    }
}

/// A step after a tool call started in it: the first tool with that id is
/// refreshed (name and arguments only when given), or a new tool is added.
pub open spec fn start_tool(
    s: StepView,
    id: Seq<char>,
    name: Seq<char>,
    args: Seq<char>,
) -> StepView {
    let tools = match tool_pos_from(s.tools, id, 0) {
        Some(q) => s.tools.update(
            q,
            ToolView {
                name: if name.len() > 0 {
                    name
                } else {
                    s.tools[q].name
                },
                args: if args.len() > 0 {
                    args
                } else {
                    s.tools[q].args
                },
                status: ToolStatus::Running,
                ..s.tools[q]
            },
        ),
        None => s.tools.push(
            ToolView { id, name, args, summary: None, status: ToolStatus::Running },
        ),
    };
    StepView { phase: StepPhase::Observing, tools, ..s }
}

/// A step after the tool call `id` returned: its first tool with that id gets
/// the summary and is done.
pub open spec fn finish_tool(s: StepView, id: Seq<char>, summary: Seq<char>) -> StepView {
    match tool_pos_from(s.tools, id, 0) {
        Some(q) => StepView {
            tools: s.tools.update(
                q,
                ToolView { summary: Some(summary), status: ToolStatus::Done, ..s.tools[q] },
            ),
            ..s
        },
        None => s,
    }
}

/// The sum of the step durations that are known.
pub open spec fn duration_sum(steps: Seq<StepView>) -> int
    decreases steps.len(),
{
    if steps.len() == 0 {
        0
    } else {
        duration_sum(steps.drop_last()) + match steps.last().duration_ms {
            Some(d) => d as int,
            None => 0,
        }
    }
}

/// Every running total of the step durations fits in an `i64`.
pub open spec fn durations_fit(steps: Seq<StepView>) -> bool {
    forall|k: int|
        0 <= k <= steps.len() ==> i64::MIN <= #[trigger] duration_sum(steps.take(k))
            <= i64::MAX
}

/// The panel once the agent has finished: done, expanded, and with the sum of
/// the step durations as total when none was known and the sum is positive.
pub open spec fn finalize(t: ThinkingView) -> ThinkingView {
    ThinkingView {
        status: ThinkingStatus::Done,
        expanded: true,
        total_duration_ms: if t.total_duration_ms is None && duration_sum(t.steps) > 0 {
            Some(duration_sum(t.steps) as i64)
        } else {
            t.total_duration_ms
        },
        ..t
    }
}

/// The last unsaved answer gets its id and run id and a finished panel.
pub open spec fn persist_answer(msgs: Seq<MessageView>, assistant_id: Seq<char>, run_id: Seq<char>) -> Seq<MessageView> {
    match last_unsaved_assistant_before(msgs, msgs.len() as int) {
        Some(k) => match msgs[k] {
            MessageView::Assistant { id, content, agent_run_id, thinking } => msgs.update(
                k,
                MessageView::Assistant {
                    id: Some(assistant_id),
                    content,
                    agent_run_id: Some(run_id),
                    thinking: ThinkingView {
                        status: ThinkingStatus::Done,
                        expanded: true,
                        ..thinking
                    },
                },
            ),
            _ => msgs,
        },
        None => msgs,
    }
}

/// The last unsaved question gets its id.
pub open spec fn persist_question(msgs: Seq<MessageView>, user_id: Seq<char>) -> Seq<MessageView> {
    match last_unsaved_user_before(msgs, msgs.len() as int) {
        Some(k) => match msgs[k] {
            MessageView::User { id, content, attachments } => msgs.update(
                k,
                MessageView::User { id: Some(user_id), content, attachments },
            ),
            _ => msgs,
        },
        None => msgs,
    }
}

/// Marks the turn as saved: the last unsaved answer gets its id and run id and
/// a finished panel, then the last unsaved question gets its id.
pub open spec fn persist_turn(
    msgs: Seq<MessageView>,
    user_id: Seq<char>,
    assistant_id: Seq<char>,
    run_id: Seq<char>,
) -> Seq<MessageView> {
    persist_question(persist_answer(msgs, assistant_id, run_id), user_id)
}

/// The content and thinking panel of the last answer after an event that
/// concerns it.
pub open spec fn answer_update(ev: EventView, c: Seq<char>, t: ThinkingView) -> (
    Seq<char>,
    ThinkingView,
) {
    match ev {
        EventView::AgentStepStart { index } => (
            c,
            upsert_step(ThinkingView { status: ThinkingStatus::Running, expanded: true, ..t }, index).0,
        ),
        EventView::AgentThinking { index } => {
            let (t1, p) = upsert_step(t, index);
            (c, set_step(t1, p, StepView { phase: StepPhase::Thinking, ..t1.steps[p] }))
        },
        EventView::ThinkingDelta { step_index, text } => {
            let (t1, p) = upsert_step(t, step_index);
            (c, set_step(t1, p, append_step_text(t1.steps[p], text)))
        },
        EventView::AnswerDelta { text } => (c + text, t),
        EventView::Delta { text } => (
            c + text,
            if t.steps.len() > 0 {
                set_step(t, t.steps.len() - 1, append_step_text(t.steps.last(), text))
            } else {
                t
            },
        ),
        EventView::AgentObserving { index } => {
            let (t1, p) = upsert_step(t, index);
            (c, set_step(t1, p, StepView { phase: StepPhase::Observing, ..t1.steps[p] }))
        },
        EventView::ToolStart { id, name, args, step_index } => {
            let (t1, p) = upsert_step(t, tool_step_index(t, step_index));
            (c, set_step(t1, p, start_tool(t1.steps[p], id, name, args)))
        },
        EventView::ToolResult { id, summary } => (
            c,
            ThinkingView {
                steps: t.steps.map_values(|s: StepView| finish_tool(s, id, summary)),
                ..t
            },
        ),
        EventView::AgentStepDone { index, model_output, duration_ms } => {
            let (t1, p) = upsert_step(t, index);
            (c, set_step(t1, p, finish_step(t1.steps[p], model_output, duration_ms)))
        },
        EventView::AgentFinalizing => (c, finalize(t)),
        EventView::Error { .. } => (
            c,
            ThinkingView { status: ThinkingStatus::Error, expanded: true, ..t },
        ),
        _ => (c, t),
    }
}

/// The step a tool call belongs to: the one the event names, or else the
/// number of steps so far (at least 1).
pub open spec fn tool_step_index(t: ThinkingView, step_index: Option<usize>) -> usize {
    match step_index {
        Some(i) => i,
        None => if t.steps.len() >= 1 {
            t.steps.len() as usize
        } else {
            1
        },
    }
}

/// A step once the agent reports it done: the model output replaces the text
/// when it is not empty, and the duration is recorded.
pub open spec fn finish_step(s: StepView, model_output: Seq<char>, duration_ms: Option<i64>) -> StepView {
    StepView {
        model_text: if model_output.len() > 0 {
            model_output
        } else {
            s.model_text
        },
        phase: StepPhase::Done,
        duration_ms,
        ..s
    }
}

/// The transcript after one event, and the error to show (if the event is one).
pub open spec fn apply_event(msgs: Seq<MessageView>, ev: EventView) -> (
    Seq<MessageView>,
    Option<Seq<char>>,
) {
    match ev {
        EventView::TurnPersisted { user_message_id, assistant_message_id, agent_run_id } => (
            persist_turn(msgs, user_message_id, assistant_message_id, agent_run_id),
            None,
        ),
        EventView::Done => (msgs, None),
        EventView::Error { message } => (
            update_last_assistant(msgs, |c: Seq<char>, t: ThinkingView| answer_update(ev, c, t)),
            Some(message),
        ),
        _ => (
            update_last_assistant(msgs, |c: Seq<char>, t: ThinkingView| answer_update(ev, c, t)),
            None,
        ),
    }
}



proof fn lemma_step_pos(steps: Seq<StepView>, index: usize, i: int)
    requires
        0 <= i,
    ensures
        step_pos_from(steps, index, i) matches Some(p) ==> i <= p < steps.len() && steps[p].index
            == index,
    decreases steps.len() - i,
{
    if i < steps.len() && steps[i].index != index {
        lemma_step_pos(steps, index, i + 1);
    }
}

proof fn lemma_tool_pos(tools: Seq<ToolView>, id: Seq<char>, i: int)
    requires
        0 <= i,
    ensures
        tool_pos_from(tools, id, i) matches Some(q) ==> i <= q < tools.len() && tools[q].id == id,
    decreases tools.len() - i,
{
    if i < tools.len() && tools[i].id != id {
        lemma_tool_pos(tools, id, i + 1);
    }
}

proof fn lemma_last_assistant(msgs: Seq<MessageView>, k: int)
    requires
        k <= msgs.len(),
    ensures
        last_assistant_before(msgs, k) matches Some(j) ==> 0 <= j < k && msgs[j] is Assistant,
    decreases k,
{
    if k > 0 && !(msgs[k - 1] is Assistant) {
        lemma_last_assistant(msgs, k - 1);
    }
}

proof fn lemma_last_unsaved(msgs: Seq<MessageView>, k: int)
    requires
        k <= msgs.len(),
    ensures
        last_unsaved_assistant_before(msgs, k) matches Some(j) ==> 0 <= j < k && msgs[j] is Assistant,
        last_unsaved_user_before(msgs, k) matches Some(j) ==> 0 <= j < k && msgs[j] is User,
    decreases k,
{
    if k > 0 {
        lemma_last_unsaved(msgs, k - 1);
    }
}

/// The step that `upsert_step` names exists.
pub proof fn lemma_upsert_step(t: ThinkingView, index: usize)
    ensures
        0 <= upsert_step(t, index).1 < upsert_step(t, index).0.steps.len(),
        upsert_step(t, index).0.steps[upsert_step(t, index).1].index == index,
{
    lemma_step_pos(t.steps, index, 0);
}

// ---------------------------------------------------------------------------
// Executable transitions
// ---------------------------------------------------------------------------

/// A copy of an optional string.
pub fn copy_opt(o: &Option<String>) -> (r: Option<String>)
    ensures
        opt_view(r) == opt_view(*o),
{
    match o {
        Some(s) => Some(s.clone()),
        None => None,
    }
}

/// Replacing element `p` by `x` through `remove` and `insert`.
proof fn lemma_remove_insert<T>(v: Seq<T>, p: int, x: T)
    requires
        0 <= p < v.len(),
    ensures
        v.remove(p).insert(p, x) == v.update(p, x),
{
    assert(v.remove(p).insert(p, x) =~= v.update(p, x));
}

/// Makes sure a step numbered `index` exists and returns its position.
pub fn upsert_thinking_step_index(thinking: &mut UiAgentThinking, index: usize) -> (r: usize)
    ensures
        (final(thinking)@, r as int) == upsert_step(old(thinking)@, index),
        r < final(thinking).steps@.len(),
{
    proof {
        lemma_upsert_step(old(thinking)@, index);
    }
    let ghost sv = steps_view(thinking.steps@);
    let mut i: usize = 0;
    while i < thinking.steps.len()
        invariant
            i <= thinking.steps@.len(),
            sv == steps_view(thinking.steps@),
            thinking@ == old(thinking)@,
            step_pos_from(sv, index, 0) == step_pos_from(sv, index, i as int),
        decreases thinking.steps.len() - i,
    {
        if thinking.steps[i].index == index {
            return i;
        }
        i += 1;
    }
    let n = thinking.steps.len();
    let step = UiThinkingStep {
        index,
        phase: StepPhase::Thinking,
        model_text: String::new(),
        tools: Vec::new(),
        duration_ms: None,
    };
    thinking.steps.push(step);
    proof {
        assert(step@ == new_step(index)) by {
            assert(tools_view(step.tools@) =~= Seq::<ToolView>::empty());
        }
        assert(steps_view(thinking.steps@) =~= sv.push(new_step(index)));
    }
    n
}

/// Sets the phase of step `p`.
fn set_step_phase(thinking: &mut UiAgentThinking, p: usize, phase: StepPhase)
    requires
        p < old(thinking).steps@.len(),
    ensures
        final(thinking)@ == set_step(
            old(thinking)@,
            p as int,
            StepView { phase, ..old(thinking)@.steps[p as int] },
        ),
{
    let ghost old_steps = thinking.steps@;
    let mut step = thinking.steps.remove(p);
    step.phase = phase;
    thinking.steps.insert(p, step);
    proof {
        lemma_remove_insert(old_steps, p as int, step);
        assert(steps_view(thinking.steps@) =~= steps_view(old_steps).update(p as int, step@));
    }
}

/// Appends `text` to what the model wrote in step `p`.
fn append_text_at(thinking: &mut UiAgentThinking, p: usize, text: &str)
    requires
        p < old(thinking).steps@.len(),
    ensures
        final(thinking)@ == set_step(
            old(thinking)@,
            p as int,
            append_step_text(old(thinking)@.steps[p as int], text@),
        ),
{
    let ghost old_steps = thinking.steps@;
    let mut step = thinking.steps.remove(p);
    step.model_text.append(text);
    thinking.steps.insert(p, step);
    proof {
        lemma_remove_insert(old_steps, p as int, step);
        assert(steps_view(thinking.steps@) =~= steps_view(old_steps).update(p as int, step@));
    }
}

/// Records that step `p` is done.
fn finish_step_at(thinking: &mut UiAgentThinking, p: usize, model_output: &String, duration_ms: Option<i64>)
    requires
        p < old(thinking).steps@.len(),
    ensures
        final(thinking)@ == set_step(
            old(thinking)@,
            p as int,
            finish_step(old(thinking)@.steps[p as int], model_output@, duration_ms),
        ),
{
    let ghost old_steps = thinking.steps@;
    let mut step = thinking.steps.remove(p);
    if !model_output.as_str().is_empty() {
        step.model_text = model_output.clone();
    }
    step.phase = StepPhase::Done;
    step.duration_ms = duration_ms;
    thinking.steps.insert(p, step);
    proof {
        lemma_remove_insert(old_steps, p as int, step);
        assert(steps_view(thinking.steps@) =~= steps_view(old_steps).update(p as int, step@));
    }
}

/// Position of the first tool with id `id`.
fn tool_position(tools: &Vec<UiThinkingTool>, id: &String) -> (r: Option<usize>)
    ensures
        r matches Some(q) ==> tool_pos_from(tools_view(tools@), id@, 0) == Some(q as int) && q
            < tools@.len(),
        r is None ==> tool_pos_from(tools_view(tools@), id@, 0) is None,
{
    let ghost tv = tools_view(tools@);
    let mut i: usize = 0;
    while i < tools.len()
        invariant
            i <= tools@.len(),
            tv == tools_view(tools@),
            tool_pos_from(tv, id@, 0) == tool_pos_from(tv, id@, i as int),
        decreases tools.len() - i,
    {
        if tools[i].id == *id {
            proof {
                lemma_tool_pos(tv, id@, 0);
            }
            return Some(i);
        }
        i += 1;
    }
    None
}

/// Starts (or refreshes) the tool call `id` in step `p`.
fn start_tool_at(thinking: &mut UiAgentThinking, p: usize, id: &String, name: &String, args: &String)
    requires
        p < old(thinking).steps@.len(),
    ensures
        final(thinking)@ == set_step(
            old(thinking)@,
            p as int,
            start_tool(old(thinking)@.steps[p as int], id@, name@, args@),
        ),
{
    let ghost old_steps = thinking.steps@;
    let mut step = thinking.steps.remove(p);
    let ghost old_tools = step.tools@;
    step.phase = StepPhase::Observing;
    match tool_position(&step.tools, id) {
        Some(q) => {
            let mut tool = step.tools.remove(q);
            if !name.as_str().is_empty() {
                tool.name = name.clone();
            }
            if !args.as_str().is_empty() {
                tool.args = args.clone();
            }
            tool.status = ToolStatus::Running;
            step.tools.insert(q, tool);
            proof {
                lemma_remove_insert(old_tools, q as int, tool);
                assert(tools_view(step.tools@) =~= tools_view(old_tools).update(q as int, tool@));
            }
        },
        None => {
            let tool = UiThinkingTool {
                id: id.clone(),
                name: name.clone(),
                args: args.clone(),
                summary: None,
                status: ToolStatus::Running,
            };
            step.tools.push(tool);
            proof {
                assert(tools_view(step.tools@) =~= tools_view(old_tools).push(tool@));
            }
        },
    }
    thinking.steps.insert(p, step);
    proof {
        lemma_remove_insert(old_steps, p as int, step);
        assert(steps_view(thinking.steps@) =~= steps_view(old_steps).update(p as int, step@));
    }
}

/// Records the result of the tool call `id` in every step.
fn finish_tool_everywhere(thinking: &mut UiAgentThinking, id: &String, summary: &String)
    ensures
        final(thinking)@ == (ThinkingView {
            steps: old(thinking)@.steps.map_values(|s: StepView| finish_tool(s, id@, summary@)),
            ..old(thinking)@
        }),
{
    let ghost old_sv = steps_view(thinking.steps@);
    let mut i: usize = 0;
    while i < thinking.steps.len()
        invariant
            i <= thinking.steps@.len(),
            thinking.steps@.len() == old_sv.len(),
            thinking.status == old(thinking).status,
            thinking.expanded == old(thinking).expanded,
            thinking.total_duration_ms == old(thinking).total_duration_ms,
            thinking.dismissed == old(thinking).dismissed,
            forall|k: int| 0 <= k < i ==> #[trigger] steps_view(thinking.steps@)[k] == finish_tool(old_sv[k], id@, summary@),
            forall|k: int| i <= k < old_sv.len() ==> #[trigger] steps_view(thinking.steps@)[k] == old_sv[k],
            old_sv == steps_view(old(thinking).steps@),
        decreases thinking.steps.len() - i,
    {
        let ghost before = thinking.steps@;
        let mut step = thinking.steps.remove(i);
        let ghost old_tools = step.tools@;
        let ghost step_v = step@;
        match tool_position(&step.tools, id) {
            Some(q) => {
                let mut tool = step.tools.remove(q);
                tool.summary = Some(summary.clone());
                tool.status = ToolStatus::Done;
                step.tools.insert(q, tool);
                proof {
                    lemma_remove_insert(old_tools, q as int, tool);
                    assert(tools_view(step.tools@) =~= tools_view(old_tools).update(q as int, tool@));
                }
            },
            None => {},
        }
        assert(steps_view(before)[i as int] == before[i as int]@);
        assert(step_v == old_sv[i as int]);
        assert(step@ == finish_tool(step_v, id@, summary@));
        thinking.steps.insert(i, step);
        proof {
            lemma_remove_insert(before, i as int, step);
            assert(steps_view(thinking.steps@) =~= steps_view(before).update(i as int, step@));
        }
        i += 1;
    }
    proof {
        assert(steps_view(thinking.steps@) =~= old_sv.map_values(|s: StepView| finish_tool(s, id@, summary@)));
    }
}

/// The sum of the known step durations, for steps whose running totals fit.
fn sum_step_durations(steps: &Vec<UiThinkingStep>) -> (r: i64)
    requires
        durations_fit(steps_view(steps@)),
    ensures
        r == duration_sum(steps_view(steps@)),
{
    let ghost sv = steps_view(steps@);
    let mut sum: i64 = 0;
    let mut i: usize = 0;
    proof {
        assert(sv.take(0) =~= Seq::<StepView>::empty());
    }
    while i < steps.len()
        invariant
            i <= steps@.len(),
            sv == steps_view(steps@),
            durations_fit(sv),
            sum == duration_sum(sv.take(i as int)),
        decreases steps.len() - i,
    {
        proof {
            assert(sv.take(i + 1).drop_last() =~= sv.take(i as int));
            assert(sv.take(i + 1).last() == sv[i as int]);
            let _ = duration_sum(sv.take(i + 1));
        }
        match steps[i].duration_ms {
            Some(d) => {
                sum = sum + d;
            },
            None => {},
        }
        i += 1;
    }
    proof {
        assert(sv.take(sv.len() as int) =~= sv);
    }
    sum
}

/// Applies an event to the content and thinking panel of an answer.
fn apply_to_answer(ev: &SseEvent, content: &mut String, thinking: &mut UiAgentThinking)
    requires
        ev@ is AgentFinalizing ==> durations_fit(old(thinking)@.steps),
    ensures
        (final(content)@, final(thinking)@) == answer_update(ev@, old(content)@, old(thinking)@),
{
    match ev {
        SseEvent::AgentStepStart { index } => {
            thinking.status = ThinkingStatus::Running;
            thinking.expanded = true;
            let _ = upsert_thinking_step_index(thinking, *index);
        },
        SseEvent::AgentThinking { index } => {
            let p = upsert_thinking_step_index(thinking, *index);
            set_step_phase(thinking, p, StepPhase::Thinking);
        },
        SseEvent::ThinkingDelta { step_index, text } => {
            let p = upsert_thinking_step_index(thinking, *step_index);
            append_text_at(thinking, p, text.as_str());
        },
        SseEvent::AnswerDelta { text } => {
            content.append(text.as_str());
        },
        SseEvent::Delta { text } => {
            content.append(text.as_str());
            let n = thinking.steps.len();
            if n > 0 {
                append_text_at(thinking, n - 1, text.as_str());
            }
        },
        SseEvent::AgentObserving { index } => {
            let p = upsert_thinking_step_index(thinking, *index);
            set_step_phase(thinking, p, StepPhase::Observing);
        },
        SseEvent::ToolStart { id, name, args, step_index } => {
            let index = match step_index {
                Some(i) => *i,
                None => {
                    let n = thinking.steps.len();
                    if n >= 1 {
                        n
                    } else {
                        1
                    }
                },
            };
            let p = upsert_thinking_step_index(thinking, index);
            start_tool_at(thinking, p, id, name, args);
        },
        SseEvent::ToolResult { id, summary } => {
            finish_tool_everywhere(thinking, id, summary);
        },
        SseEvent::AgentStepDone { index, model_output, duration_ms } => {
            let p = upsert_thinking_step_index(thinking, *index);
            finish_step_at(thinking, p, model_output, *duration_ms);
        },
        SseEvent::AgentFinalizing => {
            thinking.status = ThinkingStatus::Done;
            thinking.expanded = true;
            if thinking.total_duration_ms.is_none() {
                let sum = sum_step_durations(&thinking.steps);
                if sum > 0 {
                    thinking.total_duration_ms = Some(sum);
                }
            }
        },
        SseEvent::Error { .. } => {
            thinking.status = ThinkingStatus::Error;
            thinking.expanded = true;
        },
        _ => {},
    }
}

/// Position of the last assistant message.
fn last_assistant_index(msgs: &Vec<UiChatMessage>) -> (r: Option<usize>)
    ensures
        r matches Some(k) ==> last_assistant(messages_view(msgs@)) == Some(k as int) && k
            < msgs@.len(),
        r is None ==> last_assistant(messages_view(msgs@)) is None,
{
    let ghost mv = messages_view(msgs@);
    let mut k = msgs.len();
    while k > 0
        invariant
            k <= msgs@.len(),
            mv == messages_view(msgs@),
            last_assistant(mv) == last_assistant_before(mv, k as int),
        decreases k,
    {
        match &msgs[k - 1] {
            UiChatMessage::Assistant { .. } => {
                return Some(k - 1);
            },
            _ => {},
        }
        k -= 1;
    }
    None
}

/// Applies an event that concerns the last answer to it.
fn apply_to_last_assistant(ev: &SseEvent, msgs: &mut Vec<UiChatMessage>)
    requires
        event_applicable(messages_view(old(msgs)@), ev@),
    ensures
        messages_view(final(msgs)@) == update_last_assistant(
            messages_view(old(msgs)@),
            |c: Seq<char>, t: ThinkingView| answer_update(ev@, c, t),
        ),
{
    let ghost mv = messages_view(msgs@);
    proof {
        lemma_last_assistant(mv, mv.len() as int);
    }
    match last_assistant_index(msgs) {
        Some(k) => {
            let ghost old_msgs = msgs@;
            assert(mv[k as int] == old_msgs[k as int]@);
            let m = msgs.remove(k);
            match m {
                UiChatMessage::Assistant { id, mut content, agent_run_id, mut thinking } => {
                    apply_to_answer(ev, &mut content, &mut thinking);
                    let nm = UiChatMessage::Assistant { id, content, agent_run_id, thinking };
                    msgs.insert(k, nm);
                    proof {
                        lemma_remove_insert(old_msgs, k as int, nm);
                        assert(messages_view(msgs@) =~= mv.update(k as int, nm@));
                    }
                },
                UiChatMessage::User { id, content, attachments } => {
                    let nm = UiChatMessage::User { id, content, attachments };
                    msgs.insert(k, nm);
                    proof {
                        lemma_remove_insert(old_msgs, k as int, nm);
                        assert(messages_view(msgs@) =~= mv.update(k as int, nm@));
                        assert(mv[k as int] == nm@);
                        assert(messages_view(msgs@) =~= mv);
                    }
                },
            }
        },
        None => {},
    }
}

/// Gives the last unsaved answer its ids.
fn persist_answer_exec(msgs: &mut Vec<UiChatMessage>, assistant_id: &String, run_id: &String)
    ensures
        messages_view(final(msgs)@) == persist_answer(messages_view(old(msgs)@), assistant_id@, run_id@),
{
    let ghost mv = messages_view(msgs@);
    let mut k = msgs.len();
    while k > 0
        invariant
            k <= msgs@.len(),
            mv == messages_view(msgs@),
            last_unsaved_assistant_before(mv, mv.len() as int) == last_unsaved_assistant_before(mv, k as int),
        ensures
            k <= msgs@.len(),
            last_unsaved_assistant_before(mv, mv.len() as int) == if k > 0 {
                Some(k - 1)
            } else {
                None::<int>
            },
        decreases k,
    {
        let hit = match &msgs[k - 1] {
            UiChatMessage::Assistant { id, .. } => id.is_none(),
            _ => false,
        };
        assert(mv[k - 1] == msgs@[k - 1]@);
        if hit {
            break;
        }
        k -= 1;
    }
    if k > 0 {
        let ghost old_msgs = msgs@;
        assert(mv[k - 1] == old_msgs[k - 1]@);
        let m = msgs.remove(k - 1);
        match m {
            UiChatMessage::Assistant { id: _, content, agent_run_id: _, mut thinking } => {
                thinking.status = ThinkingStatus::Done;
                thinking.expanded = true;
                let nm = UiChatMessage::Assistant {
                    id: Some(assistant_id.clone()),
                    content,
                    agent_run_id: Some(run_id.clone()),
                    thinking,
                };
                msgs.insert(k - 1, nm);
                proof {
                    lemma_remove_insert(old_msgs, k - 1, nm);
                    assert(messages_view(msgs@) =~= mv.update(k - 1, nm@));
                }
            },
            UiChatMessage::User { id, content, attachments } => {
                let nm = UiChatMessage::User { id, content, attachments };
                msgs.insert(k - 1, nm);
                proof {
                    lemma_remove_insert(old_msgs, k - 1, nm);
                }
            },
        }
    }
}

/// Gives the last unsaved question its id.
fn persist_question_exec(msgs: &mut Vec<UiChatMessage>, user_id: &String)
    ensures
        messages_view(final(msgs)@) == persist_question(messages_view(old(msgs)@), user_id@),
{
    let ghost m1 = messages_view(msgs@);
    let mut j = msgs.len();
    while j > 0
        invariant
            j <= msgs@.len(),
            m1 == messages_view(msgs@),
            last_unsaved_user_before(m1, m1.len() as int) == last_unsaved_user_before(m1, j as int),
        ensures
            j <= msgs@.len(),
            last_unsaved_user_before(m1, m1.len() as int) == if j > 0 {
                Some(j - 1)
            } else {
                None::<int>
            },
        decreases j,
    {
        let hit = match &msgs[j - 1] {
            UiChatMessage::User { id, .. } => id.is_none(),
            _ => false,
        };
        assert(m1[j - 1] == msgs@[j - 1]@);
        if hit {
            break;
        }
        j -= 1;
    }
    if j > 0 {
        let ghost old_msgs = msgs@;
        assert(m1[j - 1] == old_msgs[j - 1]@);
        let m = msgs.remove(j - 1);
        match m {
            UiChatMessage::User { id: _, content, attachments } => {
                let nm = UiChatMessage::User { id: Some(user_id.clone()), content, attachments };
                msgs.insert(j - 1, nm);
                proof {
                    lemma_remove_insert(old_msgs, j - 1, nm);
                    assert(messages_view(msgs@) =~= m1.update(j - 1, nm@));
                }
            },
            UiChatMessage::Assistant { id, content, agent_run_id, thinking } => {
                let nm = UiChatMessage::Assistant { id, content, agent_run_id, thinking };
                msgs.insert(j - 1, nm);
                proof {
                    lemma_remove_insert(old_msgs, j - 1, nm);
                }
            },
        }
    }
}

/// Applies one event of the chat stream to the transcript; an error event also
/// sets the error text to show.
pub fn apply_chat_sse_event(ev: SseEvent, chat_messages: &mut Vec<UiChatMessage>, err_text: &mut Option<String>)
    requires
        event_applicable(messages_view(old(chat_messages)@), ev@),
    ensures
        messages_view(final(chat_messages)@) == apply_event(messages_view(old(chat_messages)@), ev@).0,
        match apply_event(messages_view(old(chat_messages)@), ev@).1 {
            Some(m) => opt_view(*final(err_text)) == Some(m),
            None => *final(err_text) == *old(err_text),
        },
{
    match &ev {
        SseEvent::TurnPersisted { user_message_id, assistant_message_id, agent_run_id } => {
            persist_answer_exec(chat_messages, assistant_message_id, agent_run_id);
            persist_question_exec(chat_messages, user_message_id);
        },
        SseEvent::Done => {},
        SseEvent::Error { message } => {
            *err_text = Some(message.clone());
            apply_to_last_assistant(&ev, chat_messages);
        },
        _ => {
            apply_to_last_assistant(&ev, chat_messages);
        },
    }
}

/// What [`apply_chat_sse_event`] needs of the transcript: the running totals of
/// the step durations of the last answer fit in an `i64` (the sum is taken
/// with checked arithmetic in debug builds).
pub open spec fn event_applicable(msgs: Seq<MessageView>, ev: EventView) -> bool {
    ev is AgentFinalizing ==> match last_assistant(msgs) {
        Some(k) => durations_fit(msgs[k]->Assistant_thinking.steps),
        None => true,
    }
}

} // verus!

verus! {

// ---------------------------------------------------------------------------
// Stored history
// ---------------------------------------------------------------------------

/// A message as the server stores it.
#[derive(Debug)]
pub struct StoredChatMessageDto {
    pub id: String,
    pub role: String,
    pub content: String,
    pub agent_run_id: Option<String>,
}

/// The greeting shown in an empty conversation.
pub open spec fn welcome_view() -> Seq<MessageView> {
    seq![
        MessageView::Assistant {
            id: None,
            content: "您好！我是 Pusa，有什么问题都可以问我。"@,
            agent_run_id: None,
            thinking: idle_thinking(),
        },
    ]
}

/// The view of a stored message in the transcript: user and assistant
/// messages keep their id and text; other roles are not shown.
pub open spec fn stored_view(m: StoredChatMessageDto) -> Option<MessageView> {
    if m.role@ == "user"@ {
        Some(MessageView::User { id: Some(m.id@), content: m.content@, attachments: seq![] })
    } else if m.role@ == "assistant"@ {
        Some(
            MessageView::Assistant {
                id: Some(m.id@),
                content: m.content@,
                agent_run_id: opt_view(m.agent_run_id),
                thinking: idle_thinking(),
            },
        )
    } else {
        None
    }
}

/// The transcript of a stored conversation: the messages that have a view, or
/// the greeting when there are none.
pub open spec fn stored_transcript(ms: Seq<StoredChatMessageDto>) -> Seq<MessageView> {
    let shown = ms.filter_map(|m: StoredChatMessageDto| stored_view(m));
    if shown.len() == 0 {
        welcome_view()
    } else {
        shown
    }
}

/// A fresh reasoning panel.
pub fn idle_thinking_exec() -> (t: UiAgentThinking)
    ensures
        t@ == idle_thinking(),
{
    let t = UiAgentThinking {
        status: ThinkingStatus::Idle,
        expanded: false,
        steps: Vec::new(),
        total_duration_ms: None,
        dismissed: false,
    };
    assert(steps_view(t.steps@) =~= Seq::<StepView>::empty());
    t
}

/// The greeting shown in an empty conversation.
pub fn welcome_chat_messages() -> (r: Vec<UiChatMessage>)
    ensures
        messages_view(r@) == welcome_view(),
{
    let mut r = Vec::new();
    r.push(
        UiChatMessage::Assistant {
            id: None,
            content: "您好！我是 Pusa，有什么问题都可以问我。".to_string(),
            agent_run_id: None,
            thinking: idle_thinking_exec(),
        },
    );
    assert(messages_view(r@) =~= welcome_view());
    r
}

/// The transcript message for a stored message, if its role is shown.
pub fn stored_message_to_ui(message: StoredChatMessageDto) -> (r: Option<UiChatMessage>)
    ensures
        match r {
            Some(m) => stored_view(message) == Some(m@),
            None => stored_view(message) is None,
        },
{
    let ghost mv = message;
    let is_user = crate::text::str_eq(message.role.as_str(), "user");
    let is_assistant = crate::text::str_eq(message.role.as_str(), "assistant");
    if is_user {
        let attachments: Vec<String> = Vec::new();
        let m = UiChatMessage::User { id: Some(message.id), content: message.content, attachments };
        assert(attachments@.map_values(|a: String| a@) =~= Seq::<Seq<char>>::empty());
        Some(m)
    } else if is_assistant {
        Some(
            UiChatMessage::Assistant {
                id: Some(message.id),
                content: message.content,
                agent_run_id: message.agent_run_id,
                thinking: idle_thinking_exec(),
            },
        )
    } else {
        None
    }
}

/// The transcript of a stored conversation, or the greeting when it shows
/// nothing.
pub fn stored_messages_to_ui(messages: Vec<StoredChatMessageDto>) -> (r: Vec<UiChatMessage>)
    ensures
        messages_view(r@) == stored_transcript(messages@),
{
    let ghost ms = messages@;
    let mut out: Vec<UiChatMessage> = Vec::new();
    let mut i: usize = 0;
    while i < messages.len()
        invariant
            i <= ms.len(),
            ms == messages@,
            messages_view(out@) == ms.take(i as int).filter_map(
                |m: StoredChatMessageDto| stored_view(m),
            ),
        decreases messages.len() - i,
    {
        let m = &messages[i];
        let copy = StoredChatMessageDto {
            id: m.id.clone(),
            role: m.role.clone(),
            content: m.content.clone(),
            agent_run_id: copy_opt(&m.agent_run_id),
        };
        assert(stored_view(copy) == stored_view(ms[i as int]));
        proof {
            assert(ms.take(i + 1).drop_last() =~= ms.take(i as int));
        }
        match stored_message_to_ui(copy) {
            Some(u) => {
                out.push(u);
            },
            None => {},
        }
        proof {
            assert(messages_view(out@) =~= ms.take(i + 1).filter_map(
                |m: StoredChatMessageDto| stored_view(m),
            ));
        }
        i += 1;
    }
    proof {
        assert(ms.take(ms.len() as int) =~= ms);
    }
    if out.len() == 0 {
        welcome_chat_messages()
    } else {
        out
    }
}

/// The title to show for a conversation: none while it still has a default
/// name.
pub open spec fn visible_title(title: Seq<char>) -> Option<Seq<char>> {
    let t = trim(title);
    if t.len() == 0 || t == "新会话"@ || t == "默认会话"@ {
        None
    } else {
        Some(t)
    }
}

/// The title to show for a conversation, if it has one of its own.
pub fn visible_conversation_title(title: &str) -> (r: Option<String>)
    ensures
        opt_view(r) == visible_title(title@),
{
    let t = trim_str(title);
    if t.as_str().is_empty() || crate::text::str_eq(t.as_str(), "新会话")
        || crate::text::str_eq(t.as_str(), "默认会话") {
        None
    } else {
        Some(t)
    }
}

} // verus!

verus! {

// ---------------------------------------------------------------------------
// Laws of the event stream
// ---------------------------------------------------------------------------

/// Two transcripts with messages of the same kinds everywhere.
pub open spec fn same_roles(a: Seq<MessageView>, b: Seq<MessageView>) -> bool {
    &&& a.len() == b.len()
    &&& forall|k: int| 0 <= k < a.len() ==> (#[trigger] a[k] is Assistant <==> b[k] is Assistant)
    &&& forall|k: int| 0 <= k < a.len() ==> (a[k] is User <==> #[trigger] b[k] is User)
}

proof fn lemma_last_assistant_same_roles(a: Seq<MessageView>, b: Seq<MessageView>, k: int)
    requires
        same_roles(a, b),
        k <= a.len(),
    ensures
        last_assistant_before(a, k) == last_assistant_before(b, k),
    decreases k,
{
    if k > 0 {
        assert(a[k - 1] is Assistant <==> b[k - 1] is Assistant);
        lemma_last_assistant_same_roles(a, b, k - 1);
    }
}

proof fn lemma_update_last_assistant_roles(
    msgs: Seq<MessageView>,
    f: spec_fn(Seq<char>, ThinkingView) -> (Seq<char>, ThinkingView),
)
    ensures
        same_roles(msgs, update_last_assistant(msgs, f)),
{
    lemma_last_assistant(msgs, msgs.len() as int);
}

/// Every event keeps the number of messages and the role of each message.
pub proof fn law_event_keeps_roles(msgs: Seq<MessageView>, ev: EventView)
    ensures
        same_roles(msgs, apply_event(msgs, ev).0),
{
    match ev {
        EventView::TurnPersisted { user_message_id, assistant_message_id, agent_run_id } => {
            lemma_last_unsaved(msgs, msgs.len() as int);
            let m1 = persist_answer(msgs, assistant_message_id, agent_run_id);
            assert(same_roles(msgs, m1));
            lemma_last_unsaved(m1, m1.len() as int);
        },
        EventView::Done => {},
        _ => {
            lemma_update_last_assistant_roles(
                msgs,
                |c: Seq<char>, t: ThinkingView| answer_update(ev, c, t),
            );
        },
    }
}

/// Events other than saving a turn change at most the last answer.
pub proof fn law_only_last_answer_changes(msgs: Seq<MessageView>, ev: EventView, k: int)
    requires
        !(ev is TurnPersisted),
        0 <= k < msgs.len(),
        last_assistant(msgs) != Some(k),
    ensures
        apply_event(msgs, ev).0[k] == msgs[k],
{
    lemma_last_assistant(msgs, msgs.len() as int);
}

/// Streaming an answer in two pieces gives the same transcript as streaming
/// the two pieces joined.
pub proof fn law_answer_deltas_concatenate(msgs: Seq<MessageView>, a: Seq<char>, b: Seq<char>)
    ensures
        apply_event(apply_event(msgs, EventView::AnswerDelta { text: a }).0, EventView::AnswerDelta { text: b }).0
            == apply_event(msgs, EventView::AnswerDelta { text: a + b }).0,
{
    let m1 = apply_event(msgs, EventView::AnswerDelta { text: a }).0;
    law_event_keeps_roles(msgs, EventView::AnswerDelta { text: a });
    lemma_last_assistant_same_roles(msgs, m1, msgs.len() as int);
    lemma_last_assistant(msgs, msgs.len() as int);
    match last_assistant(msgs) {
        Some(k) => {
            match msgs[k] {
                MessageView::Assistant { id, content, agent_run_id, thinking } => {
                    assert(content + a + b =~= content + (a + b));
                    assert(m1.update(k, m1[k]) =~= m1);
                    let lhs = apply_event(m1, EventView::AnswerDelta { text: b }).0;
                    let rhs = apply_event(msgs, EventView::AnswerDelta { text: a + b }).0;
                    assert(lhs =~= rhs);
                },
                _ => {},
            }
        },
        None => {},
    }
}

proof fn lemma_step_pos_push(steps: Seq<StepView>, index: usize, x: StepView, i: int)
    requires
        0 <= i <= steps.len(),
        step_pos_from(steps, index, i) is None,
        x.index == index,
    ensures
        step_pos_from(steps.push(x), index, i) == Some(steps.len() as int),
    decreases steps.len() - i,
{
    if i < steps.len() {
        lemma_step_pos_push(steps, index, x, i + 1);
    }
}

proof fn lemma_step_pos_prefix(steps: Seq<StepView>, index: usize, x: StepView, i: int)
    requires
        0 <= i <= steps.len(),
        step_pos_from(steps, index, i) is Some,
    ensures
        step_pos_from(steps.push(x), index, i) == step_pos_from(steps, index, i),
    decreases steps.len() - i,
{
    if i < steps.len() && steps[i].index != index {
        lemma_step_pos_prefix(steps, index, x, i + 1);
    }
}

/// Making sure a step exists twice is the same as doing it once: the step is
/// found again at the same position and nothing else changes.
pub proof fn law_upsert_step_idempotent(t: ThinkingView, index: usize)
    ensures
        upsert_step(upsert_step(t, index).0, index) == upsert_step(t, index),
{
    match step_pos_from(t.steps, index, 0) {
        Some(p) => {},
        None => {
            lemma_step_pos_push(t.steps, index, new_step(index), 0);
        },
    }
}

/// Once the agent reports a step done with some output, that step of the
/// last answer shows exactly this output, whatever was streamed into it
/// before; it is done and carries the reported duration. The transcript
/// keeps its length and the answer stays an answer.
pub proof fn law_step_done_shows_output(
    msgs: Seq<MessageView>,
    index: usize,
    model_output: Seq<char>,
    duration_ms: Option<i64>,
)
    requires
        last_assistant(msgs) is Some,
        model_output.len() > 0,
    ensures
        ({
            let k = last_assistant(msgs)->0;
            let after = apply_event(
                msgs,
                EventView::AgentStepDone { index, model_output, duration_ms },
            ).0;
            &&& after.len() == msgs.len()
            &&& after[k] is Assistant
            &&& exists|p: int|
                0 <= p < after[k]->Assistant_thinking.steps.len() && {
                    let st = #[trigger] after[k]->Assistant_thinking.steps[p];
                    &&& st.index == index
                    &&& st.model_text == model_output
                    &&& st.phase == StepPhase::Done
                    &&& st.duration_ms == duration_ms
                }
        }),
{
    lemma_last_assistant(msgs, msgs.len() as int);
    let k = last_assistant(msgs)->0;
    let ev = EventView::AgentStepDone { index, model_output, duration_ms };
    let t = msgs[k]->Assistant_thinking;
    lemma_upsert_step(t, index);
    let (t1, p) = upsert_step(t, index);
    let after = apply_event(msgs, ev).0;
    let t2 = set_step(t1, p, finish_step(t1.steps[p], model_output, duration_ms));
    assert(after[k]->Assistant_thinking == t2);
    assert(t2.steps[p] == finish_step(t1.steps[p], model_output, duration_ms));
    assert(after[k]->Assistant_thinking.steps[p].model_text == model_output);
}

/// The step that a start or thinking event names exists afterwards and has
/// that number.
pub proof fn law_upsert_step_finds(t: ThinkingView, index: usize)
    ensures
        upsert_step(t, index).0.steps[upsert_step(t, index).1].index == index,
        upsert_step(t, index).0.steps.len() <= t.steps.len() + 1,
        t.steps.is_prefix_of(upsert_step(t, index).0.steps),
{
    lemma_upsert_step(t, index);
    assert(t.steps.is_prefix_of(upsert_step(t, index).0.steps)) by {
        assert(upsert_step(t, index).0.steps.take(t.steps.len() as int) =~= t.steps);
    }
}

} // verus!

verus! {

// ---------------------------------------------------------------------------
// Following the end of the transcript
// ---------------------------------------------------------------------------

/// While the transcript is scrolled to within this many pixels of its end,
/// streamed text keeps it at the end.
pub const STICKY_BOTTOM_PX: i32 = 72;

/// Whether a scrolled transcript is still near its end: what is left below
/// the visible part is at most [`STICKY_BOTTOM_PX`].
pub fn is_near_bottom(scroll_height: i32, scroll_top: i32, client_height: i32) -> (r: bool)
    requires
        i32::MIN <= scroll_height - scroll_top <= i32::MAX,
        i32::MIN <= scroll_height - scroll_top - client_height <= i32::MAX,
    ensures
        r == (scroll_height - scroll_top - client_height <= STICKY_BOTTOM_PX),
{
    let distance = scroll_height - scroll_top - client_height;
    distance <= STICKY_BOTTOM_PX
}

} // verus!

verus! {

// ---------------------------------------------------------------------------
// Checking what an event needs
// ---------------------------------------------------------------------------

/// Whether the running totals of the step durations all fit in an `i64`.
fn step_durations_fit(steps: &Vec<UiThinkingStep>) -> (r: bool)
    ensures
        r == durations_fit(steps_view(steps@)),
{
    let ghost sv = steps_view(steps@);
    let mut sum: i128 = 0;
    let mut i: usize = 0;
    proof {
        assert(sv.take(0) =~= Seq::<StepView>::empty());
    }
    while i < steps.len()
        invariant
            i <= steps@.len(),
            sv == steps_view(steps@),
            sum == duration_sum(sv.take(i as int)),
            forall|k: int| 0 <= k <= i ==> i64::MIN <= #[trigger] duration_sum(sv.take(k)) <= i64::MAX,
        decreases steps.len() - i,
    {
        proof {
            assert(sv.take(i + 1).drop_last() =~= sv.take(i as int));
            assert(sv.take(i + 1).last() == sv[i as int]);
            let _ = duration_sum(sv.take(i + 1));
        }
        match steps[i].duration_ms {
            Some(d) => {
                sum = sum + d as i128;
            },
            None => {},
        }
        if sum < i64::MIN as i128 || sum > i64::MAX as i128 {
            proof {
                assert(!(i64::MIN <= duration_sum(sv.take(i + 1)) <= i64::MAX));
            }
            return false;
        }
        i += 1;
    }
    proof {
        assert(sv.take(sv.len() as int) =~= sv);
    }
    true
}

/// Whether [`apply_chat_sse_event`] can take `ev` on this transcript (see
/// [`event_applicable`]).
pub fn chat_event_applicable(chat_messages: &Vec<UiChatMessage>, ev: &SseEvent) -> (r: bool)
    ensures
        r == event_applicable(messages_view(chat_messages@), ev@),
{
    match ev {
        SseEvent::AgentFinalizing => match last_assistant_index(chat_messages) {
            Some(k) => match &chat_messages[k] {
                UiChatMessage::Assistant { thinking, .. } => {
                    assert(messages_view(chat_messages@)[k as int] == chat_messages@[k as int]@);
                    step_durations_fit(&thinking.steps)
                },
                UiChatMessage::User { .. } => {
                    proof {
                        lemma_last_assistant(messages_view(chat_messages@), chat_messages@.len() as int);
                        assert(messages_view(chat_messages@)[k as int] == chat_messages@[k as int]@);
                    }
                    true
                },
            },
            None => true,
        },
        _ => true,
    }
}

} // verus!
