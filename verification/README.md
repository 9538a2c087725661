# xueli_memory

The memory side of a conversational assistant, as a verified library:
buffering dialogue for extraction and stepping an extraction round,
parsing the extraction model's replies, merging memory patches, the access
policy that decides which memories a chat may see, the budgets, trimming,
de-duplication and text of the memory sections of a prompt, choosing the
turns a topic recall quotes, restoring recent sessions, judging conflicts
between memories, and the text normalisation all of these share. The
executable functions in `src/` carry contracts that Verus proves, except
the small trusted wrappers around `regex`, `chrono`, `sha2`, `uuid` and a
few std calls, whose contracts are believed as written; the `law_*` proof
functions state properties that span calls.

Layout:

- `src/` — the verified library.
  - `text.rs`, `str_map.rs`, `ordering.rs` — characters, a map keyed by
    text, and facts about filtering and sorting.
  - `outside.rs` and the wrappers next to their callers — the calls into
    `regex`, `chrono`, `sha2`, `uuid` and std whose contracts are trusted.
  - `extraction/`, `retrieval/`, `internal/`, `stores/` and the service
    modules — the memory logic.
- `tests/` — tests of the compiled library.
- `app/` — what stays outside the library: scores in floating point, JSON
  records read and written with serde, fuzzy recall that reads the clock
  and draws random numbers.
