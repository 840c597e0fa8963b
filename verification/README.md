# inkflow

The core of the InkFlow speech-to-text engine, verified with Verus.

The engine listens with a fast streaming recogniser, decodes a sliding
window of recent audio with whisper, and re-decodes each finished segment
with whisper as a second pass. What the user sees is a display text that is
merged from these sources so that its leading part stays stable.

## Layout

- `src/` — the verified library.
  - `transcript` — tokens, the merge of successive window decodes into a
    stable prefix, tail de-duplication, provisional segment texts.
  - `render` — the display state: how each recogniser update changes the
    committed segments and the live tail, and when a new display is emitted.
  - `engine`, `worker` — the streaming worker's and whisper worker's
    decisions: window schedule, segment ids, read chunking, partials,
    backpressure, the activity gate and the window cache.
  - `queue`, `second_pass` — the bounded second-pass queue and the
    collection of a segment's tail audio.
  - `settings`, `whisper`, `sherpa`, `ffi` — settings checks, whisper
    configuration and transcripts, runtime-library loading messages, and
    what the C interface reports.
  - `compare`, `runs` — the comparison harness: error counts (edit
    distance), run bookkeeping and input checks.
  - `strings`, `text` — character-level text primitives.
- `tests/` — tests of the library.
- `app/` — the engine's threads, the recogniser bindings, the C interface,
  logging and the comparison command line, written around the library.
