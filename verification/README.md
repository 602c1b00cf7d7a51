# logseek

A log search library whose logic is verified with Verus.

- `src/` is the library: boolean keyword queries and path filters, the
  per-file search and its context ranges, text encodings, the session
  cache of search results, file URLs, source planning by date, the
  prompt and answer cleaning of natural-language queries, the assembly
  of an agent's streamed lines, and the decisions of the search executor
  and of the entry-stream loop. Every function there carries a contract
  that Verus proves; the calls into `globset`, `regex`, `fancy-regex`,
  `url`, `urlencoding`, `chrono`, `chrono-tz`, `chardetng`, `encoding_rs`,
  `uuid` and `num_cpus` stand behind small trusted wrappers whose
  contracts say what those crates document.
- `tests/` runs the library on concrete values.
- `app/` holds what Verus does not take: async reading, the line searcher
  of `grep-searcher`, serde forms of the library's types, the building of
  planning scripts around the library, and the process-wide cache and
  tuning.

Not here: the HTTP client that talks to agents, the async loop over an
entry stream, the executor's task and channel plumbing, and the HTTP
handlers. Their decisions are functions of `src/`
(`agent::NdjsonLines`, `entry_stream::loop_step`, `entry_stream::outcome_event`,
`executor::split_qualifiers`, `view::view_lines` and others); the code that
would drive them needs the HTTP, database and file-system crates of the
service, which this crate does not depend on.
