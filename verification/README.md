# memobreeze

The verified core of MemoBreeze, a meeting recorder that transcribes speech
and drafts minutes with a local language model.

- `src/` is the library, written in Verus. Its own logic carries contracts
  and is proved against them: the transcript state of a recording session, the
  mixing and segmentation of audio for Whisper, WAV encoding, speaker labels
  from clustered embeddings, the parsing of model replies into minutes, the
  Markdown renderings, the Google sign-in pieces (PKCE, redirect parsing,
  token handling), the building of transcript segments from Vosk results, and
  the search paths for a Whisper build. The calls into other crates are
  trusted, not proved: each stands in a small `#[verifier::external_body]`
  function whose doc comment names what it calls and what its contract
  claims: chrono (`model.rs`), uuid (`state.rs`, `oauth.rs`), sha2, base64
  and url (`oauth.rs`), serde_json (`json.rs`), and from the standard
  library `str::to_lowercase` (`llm.rs`), `String::push` (`text.rs`) and
  `slice::binary_search_by` (`state.rs`).
- `tests/` exercises the library on concrete values.
- `app/` is the unverified shell around it: file and network I/O, the
  recording threads, k-means clustering and the other floating-point work,
  and serialisable copies of the library's types.
