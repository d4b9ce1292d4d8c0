//! The conversation history beside the chat: the list of conversations, the
//! one that is open, its transcript, and the title being renamed.
//!
//! Talking to the server is the caller's part.  Each function here takes what
//! the server answered and decides what the panel shows next; deleting a
//! conversation takes several round trips, so it is a small state machine
//! ([`ChatHistoryState::begin_delete`], [`ChatHistoryState::delete_step`]).
use vstd::prelude::*;
use crate::chat::{
    messages_view, stored_messages_to_ui, stored_transcript, visible_conversation_title,
    visible_title, welcome_chat_messages, welcome_view, MessageView, StoredChatMessageDto,
    UiChatMessage,
};
use crate::text::{str_eq, trim};

verus! {

/// How many messages are fetched when a conversation is opened.
pub const MESSAGE_PAGE_LIMIT: u32 = 200;

/// A conversation as the server lists it.
#[derive(Debug)]
pub struct ConversationSummaryDto {
    pub id: String,
    pub title: String,
    /// The start of its last message.
    pub last_message_preview: String,
}

/// The view of a listed conversation.
#[verifier::ext_equal]
pub struct ConvView {
    pub id: Seq<char>,
    pub title: Seq<char>,
    pub preview: Seq<char>,
}

impl View for ConversationSummaryDto {
    type V = ConvView;

    open spec fn view(&self) -> ConvView {
        ConvView { id: self.id@, title: self.title@, preview: self.last_message_preview@ }
    }
}

/// The views of a list of conversations.
pub open spec fn convs_view(v: Seq<ConversationSummaryDto>) -> Seq<ConvView> {
    v.map_values(|c: ConversationSummaryDto| c@)
}

/// The ids of a list of conversations, in order.
pub open spec fn conv_ids(v: Seq<ConvView>) -> Seq<Seq<char>> {
    v.map_values(|c: ConvView| c.id)
}

/// What the history panel shows.
pub struct ChatHistoryState {
    pub conversations: Vec<ConversationSummaryDto>,
    pub active_id: String,
    pub messages: Vec<UiChatMessage>,
    pub title_editing: bool,
    pub title_editing_id: Option<String>,
    pub title_draft: String,
    pub error: Option<String>,
}

/// The view of the history panel.
#[verifier::ext_equal]
pub struct HistoryView {
    pub conversations: Seq<ConvView>,
    pub active_id: Seq<char>,
    pub messages: Seq<MessageView>,
    pub title_editing: bool,
    pub title_editing_id: Option<Seq<char>>,
    pub title_draft: Seq<char>,
    pub error: Option<Seq<char>>,
}

pub open spec fn opt_str(o: Option<String>) -> Option<Seq<char>> {
    match o {
        Some(s) => Some(s@),
        None => None,
    }
}

impl View for ChatHistoryState {
    type V = HistoryView;

    open spec fn view(&self) -> HistoryView {
        HistoryView {
            conversations: convs_view(self.conversations@),
            active_id: self.active_id@,
            messages: messages_view(self.messages@),
            title_editing: self.title_editing,
            title_editing_id: opt_str(self.title_editing_id),
            title_draft: self.title_draft@,
            error: opt_str(self.error),
        }
    }
}

// ---------------------------------------------------------------------------
// Transitions over views
// ---------------------------------------------------------------------------

/// The panel before anything is loaded: no conversations, the default one
/// open with the greeting.
pub open spec fn initial_history() -> HistoryView {
    HistoryView {
        conversations: seq![],
        active_id: "default"@,
        messages: welcome_view(),
        title_editing: false,
        title_editing_id: None,
        title_draft: seq![],
        error: None,
    }
}

/// `h` with no title being edited.
pub open spec fn editing_closed(h: HistoryView) -> HistoryView {
    HistoryView { title_editing: false, title_editing_id: None, title_draft: seq![], ..h }
}

/// `h` showing `e` as its error.
pub open spec fn with_error(h: HistoryView, e: Seq<char>) -> HistoryView {
    HistoryView { error: Some(e), ..h }
}

/// Whether a conversation has another id than `id`.
pub open spec fn id_differs(id: Seq<char>) -> spec_fn(ConvView) -> bool {
    |c: ConvView| c.id != id
}

/// `cs` without the conversations whose id is `id`.
pub open spec fn without_id(cs: Seq<ConvView>, id: Seq<char>) -> Seq<ConvView> {
    cs.filter(id_differs(id))
}

/// The list after `c` was created: `c` first, and no other entry with its id.
pub open spec fn list_after_create(cs: Seq<ConvView>, c: ConvView) -> Seq<ConvView> {
    seq![c] + without_id(cs, c.id)
}

/// The first position at or after `i` of a conversation with id `id`.
pub open spec fn first_with_id(cs: Seq<ConvView>, id: Seq<char>, i: int) -> Option<int>
    decreases cs.len() - i,
{
    if i < 0 || i >= cs.len() {
        None
    } else if cs[i].id == id {
        Some(i)
    } else {
        first_with_id(cs, id, i + 1)
    }
}

/// The list after `c` was renamed: the first entry with its id replaced.
pub open spec fn list_after_rename(cs: Seq<ConvView>, c: ConvView) -> Seq<ConvView> {
    match first_with_id(cs, c.id, 0) {
        Some(k) => cs.update(k, c),
        None => cs,
    }
}

/// After the server answered a request to create a conversation.
pub open spec fn after_create(h: HistoryView, created: Result<ConvView, Seq<char>>) -> HistoryView {
    match created {
        Ok(c) => editing_closed(
            HistoryView {
                conversations: list_after_create(h.conversations, c),
                active_id: c.id,
                messages: welcome_view(),
                error: None,
                ..h
            },
        ),
        Err(e) => with_error(h, e),
    }
}

/// After the server answered a request to rename a conversation.
pub open spec fn after_rename(h: HistoryView, updated: Result<ConvView, Seq<char>>) -> HistoryView {
    match updated {
        Ok(c) => editing_closed(
            HistoryView {
                conversations: list_after_rename(h.conversations, c),
                error: None,
                ..h
            },
        ),
        Err(e) => with_error(h, e),
    }
}

/// After the messages of conversation `id` were fetched to open it.
pub open spec fn after_open(
    h: HistoryView,
    id: Seq<char>,
    loaded: Result<Seq<StoredChatMessageDto>, Seq<char>>,
) -> HistoryView {
    match loaded {
        Ok(ms) => editing_closed(
            HistoryView { active_id: id, messages: stored_transcript(ms), error: None, ..h },
        ),
        Err(e) => with_error(h, e),
    }
}

/// The draft offered when renaming conversation `id`: its own title, if it
/// has one.
pub open spec fn title_draft_for(cs: Seq<ConvView>, id: Seq<char>) -> Seq<char> {
    match first_with_id(cs, id, 0) {
        Some(k) => match visible_title(cs[k].title) {
            Some(t) => t,
            None => seq![],
        },
        None => seq![],
    }
}

/// After renaming of conversation `id` was started.
pub open spec fn after_begin_edit(h: HistoryView, id: Seq<char>) -> HistoryView {
    HistoryView {
        title_editing: true,
        title_editing_id: Some(id),
        title_draft: title_draft_for(h.conversations, id),
        ..h
    }
}

/// The conversation to open once the list is known: the first, or the
/// default one.
pub open spec fn initial_active(cs: Seq<ConvView>) -> Seq<char> {
    if cs.len() > 0 {
        cs[0].id
    } else {
        "default"@
    }
}

/// After the list was fetched when the panel first loads.
pub open spec fn after_initial_list(h: HistoryView, listed: Result<Seq<ConvView>, Seq<char>>) -> HistoryView {
    match listed {
        Ok(cs) => HistoryView { conversations: cs, active_id: initial_active(cs), ..h },
        Err(e) => HistoryView { messages: welcome_view(), error: Some(e), ..h },
    }
}

/// After the messages of the first conversation were fetched when the panel
/// first loads.
pub open spec fn after_initial_messages(
    h: HistoryView,
    loaded: Result<Seq<StoredChatMessageDto>, Seq<char>>,
) -> HistoryView {
    match loaded {
        Ok(ms) => HistoryView { messages: stored_transcript(ms), error: None, ..h },
        Err(e) => HistoryView { messages: welcome_view(), error: Some(e), ..h },
    }
}

// ---------------------------------------------------------------------------
// Deleting a conversation
// ---------------------------------------------------------------------------

/// What the caller does next while a conversation is deleted.
pub enum DeleteStep {
    /// Ask the server to delete the conversation with this id.
    Delete(String),
    /// Fetch the list of conversations.
    List,
    /// Fetch the messages of this conversation (at most
    /// [`MESSAGE_PAGE_LIMIT`]).
    Load(String),
    /// Ask the server to create a conversation.
    Create,
    /// Nothing: the deletion is over.
    Done,
}

/// The view of a [`DeleteStep`].
pub enum StepView {
    Delete(Seq<char>),
    List,
    Load(Seq<char>),
    Create,
    Done,
}

impl View for DeleteStep {
    type V = StepView;

    open spec fn view(&self) -> StepView {
        match self {
            DeleteStep::Delete(id) => StepView::Delete(id@),
            DeleteStep::List => StepView::List,
            DeleteStep::Load(id) => StepView::Load(id@),
            DeleteStep::Create => StepView::Create,
            DeleteStep::Done => StepView::Done,
        }
    }
}

/// What a deletion remembers between round trips.
pub struct DeleteFlow {
    pub id: String,
    pub was_active: bool,
}

/// What the server answered to the last step.
pub enum DeleteReply {
    Deleted(Result<(), String>),
    Listed(Result<Vec<ConversationSummaryDto>, String>),
    Loaded(Result<Vec<StoredChatMessageDto>, String>),
    Created(Result<ConversationSummaryDto, String>),
}

/// The view of a [`DeleteReply`].
pub enum ReplyView {
    Deleted(Result<(), Seq<char>>),
    Listed(Result<Seq<ConvView>, Seq<char>>),
    Loaded(Result<Seq<StoredChatMessageDto>, Seq<char>>),
    Created(Result<ConvView, Seq<char>>),
}

impl View for DeleteReply {
    type V = ReplyView;

    open spec fn view(&self) -> ReplyView {
        match self {
            DeleteReply::Deleted(r) => ReplyView::Deleted(
                match r {
                    Ok(()) => Ok(()),
                    Err(e) => Err(e@),
                },
            ),
            DeleteReply::Listed(r) => ReplyView::Listed(
                match r {
                    Ok(v) => Ok(convs_view(v@)),
                    Err(e) => Err(e@),
                },
            ),
            DeleteReply::Loaded(r) => ReplyView::Loaded(
                match r {
                    Ok(v) => Ok(v@),
                    Err(e) => Err(e@),
                },
            ),
            DeleteReply::Created(r) => ReplyView::Created(
                match r {
                    Ok(c) => Ok(c@),
                    Err(e) => Err(e@),
                },
            ),
        }
    }
}

/// The end of a deletion that reached the server: no title being edited and
/// no error shown.
pub open spec fn delete_finished(h: HistoryView) -> HistoryView {
    HistoryView { error: None, ..editing_closed(h) }
}

/// One step of deleting a conversation: the panel after the reply, what to do
/// next, and whether to scroll the transcript to its end.
///
/// Deleting the open conversation opens the first one left, or creates a
/// fresh one when none is left; deleting another one only refreshes the
/// list.
pub open spec fn delete_transition(h: HistoryView, was_active: bool, r: ReplyView) -> (
    HistoryView,
    StepView,
    bool,
) {
    match r {
        ReplyView::Deleted(Ok(())) => (h, StepView::List, false),
        ReplyView::Deleted(Err(e)) => (with_error(h, e), StepView::Done, false),
        ReplyView::Listed(Err(e)) => (with_error(h, e), StepView::Done, false),
        ReplyView::Listed(Ok(cs)) => if !was_active {
            (delete_finished(HistoryView { conversations: cs, ..h }), StepView::Done, false)
        } else if cs.len() > 0 {
            (
                HistoryView { conversations: cs, active_id: cs[0].id, ..h },
                StepView::Load(cs[0].id),
                false,
            )
        } else {
            (h, StepView::Create, false)
        },
        ReplyView::Loaded(Ok(ms)) => (
            delete_finished(HistoryView { messages: stored_transcript(ms), ..h }),
            StepView::Done,
            true,
        ),
        ReplyView::Loaded(Err(_)) => (
            delete_finished(HistoryView { messages: welcome_view(), ..h }),
            StepView::Done,
            false,
        ),
        ReplyView::Created(Ok(c)) => (
            delete_finished(
                HistoryView {
                    conversations: seq![c],
                    active_id: c.id,
                    messages: welcome_view(),
                    ..h
                },
            ),
            StepView::Done,
            false,
        ),
        ReplyView::Created(Err(_)) => (delete_finished(h), StepView::Done, false),
    }
}

// ---------------------------------------------------------------------------
// Laws
// ---------------------------------------------------------------------------

/// The position [`first_with_id`] finds holds a conversation with that id.
proof fn lemma_first_with_id(cs: Seq<ConvView>, id: Seq<char>, i: int)
    requires
        0 <= i,
    ensures
        match first_with_id(cs, id, i) {
            Some(k) => i <= k < cs.len() && cs[k].id == id,
            None => forall|j: int| i <= j < cs.len() ==> cs[j].id != id,
        },
    decreases cs.len() - i,
{
    if i < cs.len() && cs[i].id != id {
        lemma_first_with_id(cs, id, i + 1);
    }
}

/// A created conversation is listed first, exactly once, and is the one
/// open.
pub proof fn law_create_lists_first_once(h: HistoryView, c: ConvView)
    ensures
        after_create(h, Ok(c)).conversations.len() >= 1,
        after_create(h, Ok(c)).conversations[0] == c,
        forall|k: int|
            1 <= k < after_create(h, Ok(c)).conversations.len()
                ==> #[trigger] after_create(h, Ok(c)).conversations[k].id != c.id,
        after_create(h, Ok(c)).active_id == c.id,
{
    let rest = without_id(h.conversations, c.id);
    let cs = after_create(h, Ok(c)).conversations;
    assert forall|k: int| 1 <= k < cs.len() implies #[trigger] cs[k].id != c.id by {
        assert(cs[k] == rest[k - 1]);
        h.conversations.lemma_filter_pred(id_differs(c.id), k - 1);
    }
}

/// Renaming changes no conversation's id and leaves the list in its order.
pub proof fn law_rename_keeps_ids(h: HistoryView, c: ConvView)
    ensures
        conv_ids(after_rename(h, Ok(c)).conversations) == conv_ids(h.conversations),
{
    lemma_first_with_id(h.conversations, c.id, 0);
    let after = after_rename(h, Ok(c)).conversations;
    assert(conv_ids(after) =~= conv_ids(h.conversations));
}

/// Deleting the open conversation opens the first one left, or creates one
/// when none is left.
pub proof fn law_delete_open_moves_on(h: HistoryView, cs: Seq<ConvView>)
    ensures
        cs.len() > 0 ==> delete_transition(h, true, ReplyView::Listed(Ok(cs))).0.active_id == cs[0].id
            && delete_transition(h, true, ReplyView::Listed(Ok(cs))).1 == StepView::Load(cs[0].id),
        cs.len() == 0 ==> delete_transition(h, true, ReplyView::Listed(Ok(cs))).1 == StepView::Create,
{
}

/// Deleting another conversation than the open one never changes which one
/// is open or what it shows, and never asks to open or create one.
pub proof fn law_delete_other_keeps_open(h: HistoryView, r: ReplyView)
    requires
        r is Deleted || r is Listed,
    ensures
        delete_transition(h, false, r).0.active_id == h.active_id,
        delete_transition(h, false, r).0.messages == h.messages,
        !(delete_transition(h, false, r).1 is Load),
        !(delete_transition(h, false, r).1 is Create),
{
}

/// Once the server has deleted the conversation and listed the rest, the
/// deletion ends with renaming closed and no error shown; fetching the
/// messages or creating a conversation always ends it.
pub proof fn law_delete_ends_clean(h: HistoryView, was_active: bool, r: ReplyView)
    requires
        r is Loaded || r is Created || (r matches ReplyView::Listed(Ok(_)) && !was_active),
    ensures
        delete_transition(h, was_active, r).1 == StepView::Done,
        delete_transition(h, was_active, r).0.title_editing == false,
        delete_transition(h, was_active, r).0.title_editing_id is None,
        delete_transition(h, was_active, r).0.error is None,
{
}

// ---------------------------------------------------------------------------
// Executable code
// ---------------------------------------------------------------------------

/// A copy of a listed conversation.
pub fn copy_conv(c: &ConversationSummaryDto) -> (r: ConversationSummaryDto)
    ensures
        r@ == c@,
{
    ConversationSummaryDto {
        id: c.id.clone(),
        title: c.title.clone(),
        last_message_preview: c.last_message_preview.clone(),
    }
}

/// `cs` without the conversations whose id is `id`.
fn remove_id(cs: &Vec<ConversationSummaryDto>, id: &str) -> (r: Vec<ConversationSummaryDto>)
    ensures
        convs_view(r@) == without_id(convs_view(cs@), id@),
{
    let ghost all = convs_view(cs@);
    let mut out: Vec<ConversationSummaryDto> = Vec::new();
    let mut i: usize = 0;
    while i < cs.len()
        invariant
            i <= cs@.len(),
            all == convs_view(cs@),
            convs_view(out@) == without_id(all.take(i as int), id@),
        decreases cs.len() - i,
    {
        proof {
            assert(all.take(i + 1) =~= all.take(i as int).push(all[i as int]));
            all.take(i as int).lemma_filter_push(all[i as int], id_differs(id@));
        }
        if !str_eq(cs[i].id.as_str(), id) {
            let c = copy_conv(&cs[i]);
            let ghost before = out@;
            out.push(c);
            proof {
                assert(convs_view(out@) =~= convs_view(before).push(c@));
            }
        }
        i += 1;
    }
    proof {
        assert(all.take(all.len() as int) =~= all);
    }
    out
}

/// The first position at or after `from` of a conversation with id `id`.
fn position_of_id(cs: &Vec<ConversationSummaryDto>, id: &str) -> (r: Option<usize>)
    ensures
        match r {
            Some(k) => k < cs@.len() && first_with_id(convs_view(cs@), id@, 0) == Some(k as int),
            None => first_with_id(convs_view(cs@), id@, 0) is None,
        },
{
    let ghost all = convs_view(cs@);
    let mut i: usize = 0;
    while i < cs.len()
        invariant
            i <= cs@.len(),
            all == convs_view(cs@),
            first_with_id(all, id@, 0) == first_with_id(all, id@, i as int),
        decreases cs.len() - i,
    {
        if str_eq(cs[i].id.as_str(), id) {
            return Some(i);
        }
        i += 1;
    }
    None
}

impl ChatHistoryState {
    /// The panel before anything is loaded.
    pub fn new() -> (r: Self)
        ensures
            r@ == initial_history(),
    {
        ChatHistoryState {
            conversations: Vec::new(),
            active_id: "default".to_string(),
            messages: welcome_chat_messages(),
            title_editing: false,
            title_editing_id: None,
            title_draft: String::new(),
            error: None,
        }
    }

    fn close_editing(&mut self)
        ensures
            final(self)@ == editing_closed(old(self)@),
    {
        self.title_editing = false;
        self.title_editing_id = None;
        self.title_draft = String::new();
    }

    /// Applies the server's answer to a request to create a conversation: on
    /// success it is listed first and opened with the greeting.
    pub fn apply_created(&mut self, created: Result<ConversationSummaryDto, String>)
        ensures
            final(self)@ == after_create(
                old(self)@,
                match created {
                    Ok(c) => Ok(c@),
                    Err(e) => Err(e@),
                },
            ),
    {
        match created {
            Ok(c) => {
                let rest = remove_id(&self.conversations, c.id.as_str());
                let mut list: Vec<ConversationSummaryDto> = Vec::new();
                let id = c.id.clone();
                list.push(c);
                let mut rest = rest;
                list.append(&mut rest);
                proof {
                    assert(convs_view(list@) =~= list_after_create(
                        old(self)@.conversations,
                        created->Ok_0@,
                    ));
                }
                self.conversations = list;
                self.active_id = id;
                self.messages = welcome_chat_messages();
                self.close_editing();
                self.error = None;
            },
            Err(e) => {
                self.error = Some(e);
            },
        }
    }

    /// Applies the server's answer to a request to rename a conversation: on
    /// success the listed entry takes the new title and renaming ends.
    pub fn apply_renamed(&mut self, updated: Result<ConversationSummaryDto, String>)
        ensures
            final(self)@ == after_rename(
                old(self)@,
                match updated {
                    Ok(c) => Ok(c@),
                    Err(e) => Err(e@),
                },
            ),
    {
        match updated {
            Ok(c) => {
                match position_of_id(&self.conversations, c.id.as_str()) {
                    Some(k) => {
                        let ghost before = convs_view(self.conversations@);
                        let ghost cv = c@;
                        self.conversations.set(k, c);
                        proof {
                            assert(convs_view(self.conversations@) =~= before.update(k as int, cv));
                        }
                    },
                    None => {},
                }
                self.close_editing();
                self.error = None;
            },
            Err(e) => {
                self.error = Some(e);
            },
        }
    }

    /// Applies the messages fetched to open conversation `id`; returns
    /// whether to scroll the transcript to its end.
    pub fn apply_opened(&mut self, id: String, loaded: Result<Vec<StoredChatMessageDto>, String>) -> (scroll: bool)
        ensures
            final(self)@ == after_open(
                old(self)@,
                id@,
                match loaded {
                    Ok(ms) => Ok(ms@),
                    Err(e) => Err(e@),
                },
            ),
            scroll == loaded is Ok,
    {
        match loaded {
            Ok(ms) => {
                self.active_id = id;
                self.messages = stored_messages_to_ui(ms);
                self.close_editing();
                self.error = None;
                true
            },
            Err(e) => {
                self.error = Some(e);
                false
            },
        }
    }

    /// Starts renaming conversation `id`, with its own title as the draft.
    pub fn begin_title_edit(&mut self, id: &str)
        ensures
            final(self)@ == after_begin_edit(old(self)@, id@),
    {
        let draft = match position_of_id(&self.conversations, id) {
            Some(k) => match visible_conversation_title(self.conversations[k].title.as_str()) {
                Some(t) => t,
                None => String::new(),
            },
            None => String::new(),
        };
        self.title_editing = true;
        self.title_editing_id = Some(id.to_string());
        self.title_draft = draft;
    }

    /// Gives up renaming.
    pub fn cancel_title_edit(&mut self)
        ensures
            final(self)@ == editing_closed(old(self)@),
    {
        self.close_editing();
    }

    /// Applies the list fetched when the panel first loads; returns the
    /// conversation whose messages to fetch next, if any.
    pub fn apply_initial_list(&mut self, listed: Result<Vec<ConversationSummaryDto>, String>) -> (next: Option<String>)
        ensures
            final(self)@ == after_initial_list(
                old(self)@,
                match listed {
                    Ok(v) => Ok(convs_view(v@)),
                    Err(e) => Err(e@),
                },
            ),
            match listed {
                Ok(v) => next matches Some(id) && id@ == initial_active(convs_view(v@)),
                Err(_) => next is None,
            },
    {
        match listed {
            Ok(list) => {
                let id = if list.len() > 0 {
                    list[0].id.clone()
                } else {
                    "default".to_string()
                };
                self.conversations = list;
                self.active_id = id.clone();
                Some(id)
            },
            Err(e) => {
                self.messages = welcome_chat_messages();
                self.error = Some(e);
                None
            },
        }
    }

    /// Applies the messages fetched when the panel first loads; returns
    /// whether to scroll the transcript to its end.
    pub fn apply_initial_messages(&mut self, loaded: Result<Vec<StoredChatMessageDto>, String>) -> (scroll: bool)
        ensures
            final(self)@ == after_initial_messages(
                old(self)@,
                match loaded {
                    Ok(ms) => Ok(ms@),
                    Err(e) => Err(e@),
                },
            ),
            scroll == loaded is Ok,
    {
        match loaded {
            Ok(ms) => {
                self.messages = stored_messages_to_ui(ms);
                self.error = None;
                true
            },
            Err(e) => {
                self.messages = welcome_chat_messages();
                self.error = Some(e);
                false
            },
        }
    }

    /// Starts deleting conversation `id`: remembers whether it is the open
    /// one, and asks for the deletion.
    pub fn begin_delete(&self, id: String) -> (r: (DeleteFlow, DeleteStep))
        ensures
            r.0.id@ == id@,
            r.0.was_active == (self.active_id@ == id@),
            r.1@ == StepView::Delete(id@),
    {
        let was_active = str_eq(self.active_id.as_str(), id.as_str());
        let step = DeleteStep::Delete(id.clone());
        (DeleteFlow { id, was_active }, step)
    }

    /// Applies the server's reply to the last step of a deletion; returns the
    /// next step and whether to scroll the transcript to its end.
    pub fn delete_step(&mut self, flow: &DeleteFlow, reply: DeleteReply) -> (r: (DeleteStep, bool))
        ensures
            (final(self)@, r.0@, r.1) == delete_transition(old(self)@, flow.was_active, reply@),
    {
        match reply {
            DeleteReply::Deleted(Ok(())) => (DeleteStep::List, false),
            DeleteReply::Deleted(Err(e)) => {
                self.error = Some(e);
                (DeleteStep::Done, false)
            },
            DeleteReply::Listed(Err(e)) => {
                self.error = Some(e);
                (DeleteStep::Done, false)
            },
            DeleteReply::Listed(Ok(list)) => {
                if !flow.was_active {
                    self.conversations = list;
                    self.close_editing();
                    self.error = None;
                    (DeleteStep::Done, false)
                } else if list.len() > 0 {
                    let first = list[0].id.clone();
                    self.active_id = first.clone();
                    self.conversations = list;
                    (DeleteStep::Load(first), false)
                } else {
                    (DeleteStep::Create, false)
                }
            },
            DeleteReply::Loaded(Ok(ms)) => {
                self.messages = stored_messages_to_ui(ms);
                self.close_editing();
                self.error = None;
                (DeleteStep::Done, true)
            },
            DeleteReply::Loaded(Err(_)) => {
                self.messages = welcome_chat_messages();
                self.close_editing();
                self.error = None;
                (DeleteStep::Done, false)
            },
            DeleteReply::Created(Ok(c)) => {
                let id = c.id.clone();
                let mut list: Vec<ConversationSummaryDto> = Vec::new();
                list.push(c);
                self.active_id = id;
                self.conversations = list;
                self.messages = welcome_chat_messages();
                self.close_editing();
                self.error = None;
                (DeleteStep::Done, false)
            },
            DeleteReply::Created(Err(_)) => {
                self.close_editing();
                self.error = None;
                (DeleteStep::Done, false)
            },
        }
    }
}

/// The line shown under a conversation in the history: its own title, else
/// the start of its last message, else a placeholder.
pub open spec fn preview_line(c: ConvView) -> Seq<char> {
    match visible_title(c.title) {
        Some(t) => t,
        None => if trim(c.preview).len() == 0 {
            "暂无消息"@
        } else {
            c.preview
        },
    }
}

/// The line shown under a conversation in the history.
pub fn conversation_preview(c: &ConversationSummaryDto) -> (r: String)
    ensures
        r@ == preview_line(c@),
{
    match visible_conversation_title(c.title.as_str()) {
        Some(t) => t,
        None => {
            if crate::text::trim_str(c.last_message_preview.as_str()).as_str().is_empty() {
                "暂无消息".to_string()
            } else {
                c.last_message_preview.clone()
            }
        },
    }
}

} // verus!
