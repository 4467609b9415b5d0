# chameleon

A minimal terminal emulator with an AI command bar. The shell runs in a PTY, its
output is parsed with `vte` and drawn with `crossterm`; `Ctrl+K` opens a bar that turns
a request in English into a shell command (Ollama, OpenAI, Gemini or Groq).

The library in `src/` holds the terminal's logic, verified with Verus:

- `screen` — the screen buffer: printed characters, control bytes, ESC and CSI
  sequences (cursor moves, erasing, SGR colours), scrolling and resizing, all stated
  over an abstract `ScreenModel`.
- `selection` — stream selection, word and line selection by clicks, copying text.
- `ai_bar` — the AI bar as a state machine: each key gives the next mode and the work
  to do (list backends or models, generate, run, save or remove a key).
- `ai` — the AI configuration, backend choices, model lists and request URLs, and the
  cleaning of model replies.
- `config_doc` — the edits that saving or removing an API key make to the config file.
- `bar_view`, `layout`, `theme`, `keys` — what is drawn where, colours, and the bytes
  a key sends to the shell.
- `helpers`, `text` — colour parsing, prompt detection, completion suffixes,
  abbreviations, history suggestions, and the string model they rest on.

`app/` is the program around it: the PTY and reader thread, the event loop, drawing,
HTTP calls, the clipboard and reading and writing the config file.
