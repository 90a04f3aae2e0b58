# wisdomguard

Enhances agentic AI guides with Google Vertex AI Gemini insights: it reads the
JSON IR of a CLI, API or documentation guide, asks Gemini for workflows,
gotchas, key commands and error solutions, and renders them as Markdown, either
as a standalone guide or merged into an existing base guide.

The library under `src/` is written in Verus and verified:

- `text` — characters, UTF-8 byte lengths, substring search, `str::replace`
  and `str::lines` semantics, trimming.
- `security` — Markdown escaping, byte-bounded descriptions, HTML stripping of
  model output (through the `regex` crate), and the path and size checks.
- `prompt` — the data model, the prompt, removal of code fences from a reply,
  and IR type detection (through `serde_json`).
- `enhancer` — the standalone guide, merging into a base guide, the dry-run
  prompt and the handling of the model's reply, with the laws of merging.
- `vertex` — configuration, the endpoint URL, HTTP status handling, the retry
  policy and the text of a reply.
- `exit` — the exit code of a failed run.

`app/` holds the command-line program: argument parsing, file and network I/O,
authentication, the async retry loop and the serde forms of the data types.
