# kokorokoe

The persistence, prompt and security core of KokoroKoe, a meeting
assistant that transcribes sessions into a portable folder of Markdown
documents. The core is written in Verus: every function in `src/` carries
a contract that Verus proves.

## Layout

- `src/persistence/` — the portable workspace: the canonical `project.md`,
  `session.md`, `transcript.md` and `summary.md` documents (rendering,
  strict parsing, round-trip laws), the checksummed recovery journal and
  its replay, the session lifecycle and writer state machines, discovery
  and listing order, index cursors and projections, and settings recovery.
- `src/prompts/` — the fixed prompt catalog and the bounded, chronological
  admission of transcript segments into a prompt.
- `src/security/` — workspace path rules, command authorization, secret
  redaction and the credential records.
- `src/outside.rs` — the calls into `sha2`, `serde_json`, `uuid`, `time`
  and the parts of std that Verus does not model, each behind a contract.
- `tests/` — executable tests of the library.
- `app/` — the file, SQLite, credential-store and thread I/O around the
  library, in ordinary Rust.
