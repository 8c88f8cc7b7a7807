# nexq

The verified core of the NexQ meeting assistant, written in Verus.

`src/` is the library. Each module states its behaviour in `requires` /
`ensures` contracts over mathematical models (`Seq`, `Map`, `int`), and the
laws that relate several operations are public proof functions named
`law_*`:

- `query_router` — lexical question classification and answer routing.
- `question_detector` — sentence splitting and question confidence.
- `token_counter` — token estimates and the prompt budget breakdown.
- `context`, `context_laws` — the knowledge-base resource list, its cached
  text, the assembled and bounded "hot" prompt context, and the laws of
  removal and restoring.
- `db::context` — the stored row of a resource.
- `context_commands` — safe path components, import filters and the text of
  Obsidian notes.
- `web_cache` — the bounded, time-limited cache of web-grounded answers.
- `codex` — the turn prompt, cache keys, model lists, cited sources and the
  state machine of a streamed Codex turn.
- `qwen_asr` — WAV encoding, request pieces and the streaming segment buffer
  of Qwen speech recognition.
- `prepare` — the preflight report before an interview.
- `text` — the character-level text model the others share.

`tests/` exercises the library on concrete values. `app/` is the program
around it: files, the database, the Codex child process, HTTP requests and
the floating-point parts.
