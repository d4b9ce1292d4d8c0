# pusa_ui

The decision logic of the Pusa console shell — the agent chat, the
conversation history, the workspace file tree and editor buffers, the content
search, the extension and skill markets, the centre tabs and the LLM
credential settings — written in Verus and proved against its contracts.

Layout:

- `src/` — the verified library, one module per part of the shell:
  `chat`, `chat_turn`, `conversations`, `agent_run`, `roles`, `skills`,
  `tabs`, `files`, `file_selection`, `editor`, `diff`, `search`, `plugins`,
  `browser`, `llm_settings`, `llm_enabled`, `keys`, `layout`, `dev_mode`, and
  the shared `text` and `paths` helpers. Each module states its transitions
  as spec functions over views and proves the laws that relate its
  operations (`law_*` proof functions).
- `tests/` — executable tests of the library on concrete values.
- `app/` — the desktop glue that performs I/O for the library: files on
  disk, `rg` and the file walk, saved preferences, key events read as the library's key
  presses, the Open VSX search over an injected HTTP transport, and the layout measurements in fractional pixels.
