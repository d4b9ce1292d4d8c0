//! Sending one chat turn: what is sent to the model, what the transcript
//! shows while the answer streams in, and how the transcript ends when the
//! stream stops.
//!
//! Streaming the answer is the caller's part; each streamed event goes
//! through [`crate::chat::apply_chat_sse_event`].
use vstd::prelude::*;
use crate::chat::{
    messages_view, MessageView, StepView, ThinkingStatus, ThinkingView, UiAgentThinking,
    UiChatMessage,
};
use crate::text::{trim, trim_str};

verus! {

broadcast use vstd::seq_lib::group_seq_properties;

/// A file attached to the draft: images carry their data URL.
#[derive(Debug)]
pub struct PendingAttachment {
    pub id: u64,
    pub name: String,
    pub image_data_url: Option<String>,
}

/// One message of the conversation as sent to the model.
#[derive(Debug)]
pub struct ChatMessageDto {
    pub role: String,
    pub content: String,
    pub images: Vec<String>,
}

/// The view of a [`ChatMessageDto`].
pub struct DtoView {
    pub role: Seq<char>,
    pub content: Seq<char>,
    pub images: Seq<Seq<char>>,
}

impl View for ChatMessageDto {
    type V = DtoView;

    open spec fn view(&self) -> DtoView {
        DtoView {
            role: self.role@,
            content: self.content@,
            images: self.images@.map_values(|s: String| s@),
        }
    }
}

/// The views of several messages.
pub open spec fn dtos_view(v: Seq<ChatMessageDto>) -> Seq<DtoView> {
    v.map_values(|d: ChatMessageDto| d@)
}

// ---------------------------------------------------------------------------
// What is sent
// ---------------------------------------------------------------------------

/// The data URL of an attached image.
pub open spec fn image_of(a: PendingAttachment) -> Option<Seq<char>> {
    match a.image_data_url {
        Some(u) => Some(u@),
        None => None,
    }
}

/// The name of an attachment that is not an image.
pub open spec fn other_name_of(a: PendingAttachment) -> Option<Seq<char>> {
    match a.image_data_url {
        Some(_) => None,
        None => Some(a.name@),
    }
}

/// The images sent with the question, in order.
pub open spec fn image_urls(atts: Seq<PendingAttachment>) -> Seq<Seq<char>> {
    atts.filter_map(|a: PendingAttachment| image_of(a))
}

/// The names of the attachments that are not images, in order.
pub open spec fn other_names(atts: Seq<PendingAttachment>) -> Seq<Seq<char>> {
    atts.filter_map(|a: PendingAttachment| other_name_of(a))
}

/// `parts` joined with `, `.
pub open spec fn comma_joined(parts: Seq<Seq<char>>) -> Seq<char>
    decreases parts.len(),
{
    if parts.len() == 0 {
        seq![]
    } else if parts.len() == 1 {
        parts[0]
    } else {
        comma_joined(parts.drop_last()) + ", "@ + parts.last()
    }
}

/// The question as sent: the trimmed draft, then a note naming the attached
/// files that are not images; a short request to look at the images when
/// nothing else is left.
pub open spec fn send_text_of(text: Seq<char>, atts: Seq<PendingAttachment>) -> Seq<char> {
    let names = other_names(atts);
    let with_names = if names.len() > 0 {
        if text.len() == 0 {
            "[附件: "@ + comma_joined(names) + "]"@
        } else {
            text + "\n\n[附件: "@ + comma_joined(names) + "]"@
        }
    } else {
        text
    };
    if with_names.len() == 0 && image_urls(atts).len() > 0 {
        "请查看附图。"@
    } else {
        with_names
    }
}

/// The earlier message sent along, if any: every question; an answer only
/// when it has text and was saved or belongs to a run.
pub open spec fn history_entry(m: MessageView) -> Option<DtoView> {
    match m {
        MessageView::User { content, .. } => Some(DtoView { role: "user"@, content, images: seq![] }),
        MessageView::Assistant { id, content, agent_run_id, .. } => if trim(content).len() == 0
            || (id is None && agent_run_id is None) {
            None
        } else {
            Some(DtoView { role: "assistant"@, content, images: seq![] })
        },
    }
}

/// Everything sent for a turn: the earlier messages kept by
/// [`history_entry`], then the question with its images.
pub open spec fn turn_history(
    msgs: Seq<MessageView>,
    send_text: Seq<char>,
    atts: Seq<PendingAttachment>,
) -> Seq<DtoView> {
    msgs.filter_map(|m: MessageView| history_entry(m)).push(
        DtoView { role: "user"@, content: send_text, images: image_urls(atts) },
    )
}

/// The reasoning panel of an answer that has just been asked for.
pub open spec fn running_thinking() -> ThinkingView {
    ThinkingView {
        status: ThinkingStatus::Running,
        expanded: false,
        steps: seq![],
        total_duration_ms: None,
        dismissed: false,
    }
}

/// The transcript once a turn is sent: the question with its attachments'
/// names, then an empty answer that is running.
pub open spec fn turn_transcript(
    msgs: Seq<MessageView>,
    send_text: Seq<char>,
    atts: Seq<PendingAttachment>,
) -> Seq<MessageView> {
    msgs.push(
        MessageView::User {
            id: None,
            content: send_text,
            attachments: atts.map_values(|a: PendingAttachment| a.name@),
        },
    ).push(
        MessageView::Assistant {
            id: None,
            content: seq![],
            agent_run_id: None,
            thinking: running_thinking(),
        },
    )
}

/// What the caller sends once the transcript shows the turn.
pub struct ChatTurn {
    /// The conversation as sent to the model.
    pub history: Vec<ChatMessageDto>,
    /// The model to ask, trimmed; `None` when none is chosen, and then
    /// nothing is sent.
    pub model: Option<String>,
}

fn copy_str(s: &String) -> (r: String)
    ensures
        r@ == s@,
{
    s.clone()
}

/// `parts` joined with `, `.
fn join_comma(parts: &Vec<String>) -> (r: String)
    ensures
        r@ == comma_joined(parts@.map_values(|s: String| s@)),
{
    let ghost ps = parts@.map_values(|s: String| s@);
    let mut out = String::new();
    let mut i: usize = 0;
    while i < parts.len()
        invariant
            i <= parts@.len(),
            ps == parts@.map_values(|s: String| s@),
            out@ == comma_joined(ps.take(i as int)),
        decreases parts.len() - i,
    {
        assert(ps.take(i as int + 1).drop_last() =~= ps.take(i as int));
        if i > 0 {
            out.append(", ");
        }
        out.append(parts[i].as_str());
        proof {
            if i == 0 {
                assert(Seq::<char>::empty() + ps[0] =~= ps[0]);
            }
        }
        i += 1;
    }
    assert(ps.take(ps.len() as int) =~= ps);
    out
}

/// The images and the other files' names among the attachments.
fn split_attachments(atts: &Vec<PendingAttachment>) -> (r: (Vec<String>, Vec<String>))
    ensures
        r.0@.map_values(|s: String| s@) == image_urls(atts@),
        r.1@.map_values(|s: String| s@) == other_names(atts@),
{
    let mut images: Vec<String> = Vec::new();
    let mut names: Vec<String> = Vec::new();
    let mut i: usize = 0;
    while i < atts.len()
        invariant
            i <= atts@.len(),
            images@.map_values(|s: String| s@) == atts@.take(i as int).filter_map(
                |a: PendingAttachment| image_of(a),
            ),
            names@.map_values(|s: String| s@) == atts@.take(i as int).filter_map(
                |a: PendingAttachment| other_name_of(a),
            ),
        decreases atts.len() - i,
    {
        proof {
            assert(atts@.take(i + 1).drop_last() =~= atts@.take(i as int));
        }
        let ghost before_i = images@;
        let ghost before_n = names@;
        match &atts[i].image_data_url {
            Some(u) => {
                images.push(copy_str(u));
                assert(images@.map_values(|s: String| s@) =~= before_i.map_values(|s: String| s@).push(u@));
            },
            None => {
                names.push(copy_str(&atts[i].name));
                assert(names@.map_values(|s: String| s@) =~= before_n.map_values(|s: String| s@).push(atts@[i as int].name@));
            },
        }
        proof {
            assert(images@.map_values(|s: String| s@) =~= atts@.take(i + 1).filter_map(
                |a: PendingAttachment| image_of(a),
            ));
            assert(names@.map_values(|s: String| s@) =~= atts@.take(i + 1).filter_map(
                |a: PendingAttachment| other_name_of(a),
            ));
        }
        i += 1;
    }
    assert(atts@.take(atts@.len() as int) =~= atts@);
    (images, names)
}

/// The question as sent, from the trimmed draft and the attachments.
pub fn compose_send_text(text: String, atts: &Vec<PendingAttachment>) -> (r: String)
    ensures
        r@ == send_text_of(text@, atts@),
{
    let (images, names) = split_attachments(atts);
    let mut out = text;
    if names.len() > 0 {
        let joined = join_comma(&names);
        if out.as_str().is_empty() {
            let mut t = "[附件: ".to_string();
            t.append(joined.as_str());
            t.append("]");
            out = t;
        } else {
            out.append("\n\n[附件: ");
            out.append(joined.as_str());
            out.append("]");
        }
    }
    if out.as_str().is_empty() && images.len() > 0 {
        out = "请查看附图。".to_string();
    }
    out
}

/// The earlier messages sent along with a question.
fn history_of(msgs: &Vec<UiChatMessage>) -> (r: Vec<ChatMessageDto>)
    ensures
        dtos_view(r@) == messages_view(msgs@).filter_map(|m: MessageView| history_entry(m)),
{
    let ghost mv = messages_view(msgs@);
    let mut out: Vec<ChatMessageDto> = Vec::new();
    let mut i: usize = 0;
    while i < msgs.len()
        invariant
            i <= msgs@.len(),
            mv == messages_view(msgs@),
            dtos_view(out@) == mv.take(i as int).filter_map(|m: MessageView| history_entry(m)),
        decreases msgs.len() - i,
    {
        proof {
            assert(mv.take(i + 1).drop_last() =~= mv.take(i as int));
        }
        let ghost before = out@;
        let entry: Option<ChatMessageDto> = match &msgs[i] {
            UiChatMessage::User { content, .. } => {
                let d = ChatMessageDto { role: "user".to_string(), content: content.clone(), images: Vec::new() };
                assert(d@.images =~= Seq::<Seq<char>>::empty());
                Some(d)
            },
            UiChatMessage::Assistant { id, content, agent_run_id, .. } => {
                let t = trim_str(content.as_str());
                if t.as_str().is_empty() || (id.is_none() && agent_run_id.is_none()) {
                    None
                } else {
                    let d = ChatMessageDto {
                        role: "assistant".to_string(),
                        content: content.clone(),
                        images: Vec::new(),
                    };
                    assert(d@.images =~= Seq::<Seq<char>>::empty());
                    Some(d)
                }
            },
        };
        match entry {
            Some(d) => {
                let ghost dv = d@;
                out.push(d);
                assert(dtos_view(out@) =~= dtos_view(before).push(dv));
            },
            None => {},
        }
        proof {
            assert(dtos_view(out@) =~= mv.take(i + 1).filter_map(|m: MessageView| history_entry(m)));
        }
        i += 1;
    }
    assert(mv.take(mv.len() as int) =~= mv);
    out
}

fn running_thinking_exec() -> (t: UiAgentThinking)
    ensures
        t@ == running_thinking(),
{
    let t = UiAgentThinking {
        status: ThinkingStatus::Running,
        expanded: false,
        steps: Vec::new(),
        total_duration_ms: None,
        dismissed: false,
    };
    assert(crate::chat::steps_view(t.steps@) =~= Seq::<StepView>::empty());
    t
}

/// Starts a chat turn from the draft and its attachments: nothing happens
/// when both are empty; otherwise the transcript shows the question and a
/// running answer, and the result holds what to send and to which model.
pub fn start_chat_turn(
    draft: &str,
    attachments: Vec<PendingAttachment>,
    transcript: &mut Vec<UiChatMessage>,
    model: &str,
) -> (r: Option<ChatTurn>)
    ensures
        r is None <==> (trim(draft@).len() == 0 && attachments@.len() == 0),
        r is None ==> messages_view(final(transcript)@) == messages_view(old(transcript)@),
        r matches Some(turn) ==> {
            let send = send_text_of(trim(draft@), attachments@);
            &&& dtos_view(turn.history@) == turn_history(messages_view(old(transcript)@), send, attachments@)
            &&& messages_view(final(transcript)@) == turn_transcript(
                messages_view(old(transcript)@),
                send,
                attachments@,
            )
            &&& match turn.model {
                Some(m) => trim(model@).len() > 0 && m@ == trim(model@),
                None => trim(model@).len() == 0,
            }
        },
{
    let text = trim_str(draft);
    if text.as_str().is_empty() && attachments.len() == 0 {
        return None;
    }
    let ghost old_msgs = messages_view(transcript@);
    let send = compose_send_text(text, &attachments);
    let (images, _) = split_attachments(&attachments);
    let mut history = history_of(transcript);
    let last = ChatMessageDto { role: "user".to_string(), content: send.clone(), images };
    let ghost before = history@;
    let ghost lv = last@;
    history.push(last);
    assert(dtos_view(history@) =~= dtos_view(before).push(lv));
    let ghost atts = attachments@;
    let mut names: Vec<String> = Vec::new();
    let mut i: usize = 0;
    while i < attachments.len()
        invariant
            i <= attachments@.len(),
            atts == attachments@,
            names@.map_values(|s: String| s@) == atts.take(i as int).map_values(
                |a: PendingAttachment| a.name@,
            ),
        decreases attachments.len() - i,
    {
        let ghost nb = names@;
        names.push(copy_str(&attachments[i].name));
        assert(names@.map_values(|s: String| s@) =~= nb.map_values(|s: String| s@).push(atts[i as int].name@));
        assert(atts.take(i + 1).map_values(|a: PendingAttachment| a.name@) =~= atts.take(i as int).map_values(
            |a: PendingAttachment| a.name@,
        ).push(atts[i as int].name@));
        i += 1;
    }
    assert(atts.take(atts.len() as int) =~= atts);
    let ghost t0 = transcript@;
    transcript.push(UiChatMessage::User { id: None, content: send, attachments: names });
    transcript.push(
        UiChatMessage::Assistant {
            id: None,
            content: String::new(),
            agent_run_id: None,
            thinking: running_thinking_exec(),
        },
    );
    proof {
        assert(messages_view(transcript@) =~= turn_transcript(
            old_msgs,
            send_text_of(trim(draft@), atts),
            atts,
        ));
    }
    let m = trim_str(model);
    let model = if m.as_str().is_empty() {
        None
    } else {
        Some(m)
    };
    Some(ChatTurn { history, model })
}

// ---------------------------------------------------------------------------
// When the stream stops
// ---------------------------------------------------------------------------

/// The error shown under the answer: one the stream reported, else the
/// failure of the request, unless the user stopped it.
pub open spec fn turn_error(
    user_aborted: bool,
    request_error: Option<Seq<char>>,
    stream_error: Option<Seq<char>>,
) -> Option<Seq<char>> {
    match stream_error {
        Some(e) => Some(e),
        None => if user_aborted {
            None
        } else {
            request_error
        },
    }
}

/// The last answer with `msg` shown as an error, its panel dismissed.
pub open spec fn with_error_shown(msgs: Seq<MessageView>, msg: Seq<char>) -> Seq<MessageView> {
    if msgs.len() > 0 {
        match msgs.last() {
            MessageView::Assistant { id, content, agent_run_id, thinking } => msgs.update(
                msgs.len() - 1,
                MessageView::Assistant {
                    id,
                    content: if content.len() == 0 {
                        "❌ "@ + msg
                    } else {
                        content + "\n❌ "@ + msg
                    },
                    agent_run_id,
                    thinking: ThinkingView { dismissed: true, ..thinking },
                },
            ),
            _ => msgs,
        }
    } else {
        msgs
    }
}

/// The transcript once the stream has stopped: a stopped answer is dropped
/// when it is last; an error is shown under the last answer.
pub open spec fn finished_transcript(
    msgs: Seq<MessageView>,
    user_aborted: bool,
    request_error: Option<Seq<char>>,
    stream_error: Option<Seq<char>>,
) -> Seq<MessageView> {
    let kept = if user_aborted && msgs.len() > 0 && msgs.last() is Assistant {
        msgs.drop_last()
    } else {
        msgs
    };
    match turn_error(user_aborted, request_error, stream_error) {
        Some(e) => with_error_shown(kept, e),
        None => kept,
    }
}

/// Ends a chat turn: `user_aborted` when the user stopped the stream,
/// `request_error` the (worded) failure of the request, `stream_error` the
/// error the stream reported.
pub fn finish_chat_turn(
    transcript: &mut Vec<UiChatMessage>,
    user_aborted: bool,
    request_error: Option<String>,
    stream_error: Option<String>,
)
    ensures
        messages_view(final(transcript)@) == finished_transcript(
            messages_view(old(transcript)@),
            user_aborted,
            match request_error {
                Some(e) => Some(e@),
                None => None,
            },
            match stream_error {
                Some(e) => Some(e@),
                None => None,
            },
        ),
{
    let ghost m0 = messages_view(transcript@);
    if user_aborted && transcript.len() > 0 {
        let n = transcript.len();
        let is_answer = match &transcript[n - 1] {
            UiChatMessage::Assistant { .. } => true,
            UiChatMessage::User { .. } => false,
        };
        if is_answer {
            let _ = transcript.pop();
            assert(messages_view(transcript@) =~= m0.drop_last());
        }
    }
    let ghost kept = messages_view(transcript@);
    let err = match stream_error {
        Some(e) => Some(e),
        None => if user_aborted {
            None
        } else {
            request_error
        },
    };
    match err {
        Some(msg) => {
            let n = transcript.len();
            if n > 0 {
                match transcript.pop() {
                    Some(UiChatMessage::Assistant { id, content, agent_run_id, thinking }) => {
                        let mut text = content;
                        if text.as_str().is_empty() {
                            text = "❌ ".to_string();
                            text.append(msg.as_str());
                        } else {
                            text.append("\n❌ ");
                            text.append(msg.as_str());
                        }
                        let mut thinking = thinking;
                        thinking.dismissed = true;
                        transcript.push(UiChatMessage::Assistant { id, content: text, agent_run_id, thinking });
                        assert(messages_view(transcript@) =~= with_error_shown(kept, msg@));
                    },
                    Some(other) => {
                        transcript.push(other);
                        assert(messages_view(transcript@) =~= kept);
                    },
                    None => {},
                }
            }
        },
        None => {},
    }
}

// ---------------------------------------------------------------------------
// Laws
// ---------------------------------------------------------------------------

/// What is sent ends with the question and its images, after the earlier
/// messages kept.
pub proof fn law_question_is_sent_last(msgs: Seq<MessageView>, send: Seq<char>, atts: Seq<PendingAttachment>)
    ensures
        turn_history(msgs, send, atts).len() == msgs.filter_map(|m: MessageView| history_entry(m)).len() + 1,
        turn_history(msgs, send, atts).last() == (DtoView {
            role: "user"@,
            content: send,
            images: image_urls(atts),
        }),
{
}

/// Stopping a turn before any error leaves the earlier transcript and the
/// question, without the answer.
pub proof fn law_stopped_turn_keeps_question(
    msgs: Seq<MessageView>,
    send: Seq<char>,
    atts: Seq<PendingAttachment>,
    request_error: Option<Seq<char>>,
)
    ensures
        finished_transcript(turn_transcript(msgs, send, atts), true, request_error, None)
            == turn_transcript(msgs, send, atts).drop_last(),
        turn_transcript(msgs, send, atts).drop_last().drop_last() == msgs,
{
    assert(turn_transcript(msgs, send, atts).drop_last().drop_last() =~= msgs);
}

/// A failed turn keeps every message and shows the error in the answer that
/// was running, whose panel is dismissed.
pub proof fn law_failed_turn_shows_error(
    msgs: Seq<MessageView>,
    send: Seq<char>,
    atts: Seq<PendingAttachment>,
    e: Seq<char>,
)
    ensures
        ({
            let f = finished_transcript(turn_transcript(msgs, send, atts), false, Some(e), None);
            &&& f.len() == msgs.len() + 2
            &&& f.take(msgs.len() as int + 1) == turn_transcript(msgs, send, atts).take(msgs.len() as int + 1)
            &&& f.last() matches MessageView::Assistant { content, thinking, .. }
            &&& content == "❌ "@ + e
            &&& thinking.dismissed
        }),
{
    let t = turn_transcript(msgs, send, atts);
    let f = finished_transcript(t, false, Some(e), None);
    assert(f.take(msgs.len() as int + 1) =~= t.take(msgs.len() as int + 1));
}

// ---------------------------------------------------------------------------
// Editing the draft
// ---------------------------------------------------------------------------

/// The draft after text was pasted into it beside images: a space keeps the
/// pasted text apart from what the draft ends with, unless it ends with a
/// space or a line break.
pub open spec fn pasted_draft(draft: Seq<char>, text: Seq<char>) -> Seq<char> {
    if draft.len() > 0 && draft.last() != '\n' && draft.last() != ' ' {
        draft + seq![' '] + text
    } else {
        draft + text
    }
}

/// Adds pasted text to the draft.
pub fn merge_pasted_text(draft: &mut String, text: &str)
    ensures
        final(draft)@ == pasted_draft(old(draft)@, text@),
{
    let ghost start = draft@;
    let v = crate::text::chars_of(draft.as_str());
    let n = v.len();
    if n > 0 && v[n - 1] != '\n' && v[n - 1] != ' ' {
        draft.append(" ");
        proof {
            reveal_strlit(" ");
        }
        assert(draft@ =~= start + seq![' ']);
    }
    draft.append(text);
}

/// Whether an attachment has another id than `id`.
pub open spec fn other_attachment(id: u64) -> spec_fn(PendingAttachment) -> bool {
    |a: PendingAttachment| a.id != id
}

/// Removes the attachment with id `id` from the draft's attachments.
pub fn remove_attachment(atts: &mut Vec<PendingAttachment>, id: u64)
    ensures
        final(atts)@ == old(atts)@.filter(other_attachment(id)),
{
    let ghost before = atts@;
    let mut kept: Vec<PendingAttachment> = Vec::new();
    let mut i: usize = 0;
    let n = atts.len();
    while i < n
        invariant
            n == before.len(),
            i <= n,
            atts@ == before.skip(i as int),
            kept@ == before.take(i as int).filter(other_attachment(id)),
        decreases n - i,
    {
        proof {
            assert(before.take(i + 1) =~= before.take(i as int).push(before[i as int]));
            before.take(i as int).lemma_filter_push(before[i as int], other_attachment(id));
        }
        let a = atts.remove(0);
        assert(a == before[i as int]);
        assert(atts@ =~= before.skip(i + 1));
        if a.id != id {
            kept.push(a);
        }
        i += 1;
    }
    assert(before.take(n as int) =~= before);
    *atts = kept;
}

} // verus!
