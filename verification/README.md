# squeaky

A cursor buddy with draw-to-highlight for Hyprland, and a sidecar research
agent that works without keys. This crate is their logic, verified with
Verus; `app/` is the program around it.

## Layout

- `src/` — the verified library
  - `text`, `json`: characters, trimming, search, byte-bounded truncation;
    the JSON tree the library reads and builds
  - `config`, `llm`: agent settings, the provider ring (keyed providers
    first) and its rotation, a chat turn's retry decisions, the wire
    messages, the event-stream decoder
  - `search`: the search backend chain and order, what each backend is asked
    and what its reply yields, DuckDuckGo's page, readable page text
  - `agent`: the tool-using conversation, tool dispatch and answers, the
    director events
  - `director`, `hotkey`, `hypr`, `ink`, `session`, `settings`, `stt`: the
    buddy's command feed, ctrl+alt chord, Hyprland replies, ink trail and pen
    sessions, session files, settings and model discovery, speech worker
    decisions, audio decimation and WAV reading
  - `frame`, `modes`: the buddy's per-frame decisions while hidden or
    drawing; the command-line modes
- `tests/` — tests of the library's public functions
- `app/` — `squeaky agent <mode>` and `squeaky buddy [mode]`: HTTP, files,
  the keyring, the Hyprland socket, evdev, the microphone, whisper and the
  GTK overlay
