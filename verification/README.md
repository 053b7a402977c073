# papr

The core of a desktop feed reader, written in Rust and proved with
[Verus](https://github.com/verus-lang/verus).

- `src/` is the library. Its functions state what they return, and Verus proves it. The exceptions are
  the small wrappers around calls into other crates and the standard library, in `sanitize`, `json`,
  `sse`, `subscribe` and `text`: what they state is trusted, and their doc comments say what it is.
  - `text`: trimming, replacing, collapsing and cutting of texts
  - `sanitize`: HTML sanitising, plain-text extraction, thumbnails, escaping
  - `rsshub`: the `rsshub://` namespace
  - `error`, `settings`, `json`: what the other modules speak in
  - `ai`, `sse`, `prompts`: provider requests, streamed responses and the prompts
  - `subscribe`, `discovery`, `opml`, `newsletter`: how sources are found and added
  - `highlights`, `share`: exports and "Send to…" targets
  - `library`: counts, tags and filter rules
- `tests/` runs the library with the crates that it calls.
- `app/` wires the library to a host: the store, the network and the desktop shell.

Work that alternates between decisions and the outside world (a subscription, a streamed
response, an import) is a state machine in the library. The application performs the action that the
machine asks for and hands back what came of it.
