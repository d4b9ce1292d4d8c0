//! Verified core of the Pusa console shell: the chat (its event stream, the
//! turn sent to the model, the conversation history, agent run reports and
//! the assistant's roles), the workspace (file tree, selection, editor
//! buffers, edit diffs and content search), the centre tabs, the extension
//! and skill markets, LLM credential settings, the in-app browser, keyboard
//! shortcuts, panel layout and developer mode.
use vstd::prelude::*;

pub mod text;
pub mod paths;
pub mod browser;
pub mod chat;
pub mod diff;
pub mod llm_enabled;
pub mod llm_settings;
pub mod search;
pub mod files;
pub mod keys;
pub mod tabs;
pub mod skills;
pub mod editor;
pub mod plugins;
pub mod conversations;
pub mod agent_run;
pub mod dev_mode;
pub mod file_selection;
pub mod chat_turn;
pub mod layout;
pub mod roles;

verus! {

} // verus!
