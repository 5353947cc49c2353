# cache_diagnostics

Read-only diagnostics of requests that are sent to an upstream endpoint with a
prefix cache. Each request is compared with the previous one of its conversation,
byte by byte and value by value, and the difference is classified: a trailing
append, a changed tool definition, a truncated tool output, a changed thinking
signature and so on. A second part attributes each signature in a request to the
source it came from.

- `src/` is the library, written in Verus. Every function has a contract that is
  proved; calls into `dashmap`, `rand`, `serde_json` and `sha2` stand behind small
  functions whose contracts say what is relied on.
- `src/laws/` states what holds of the library as a whole: equality and paths,
  precedence of classes, what the store retains, which attribution wins, what a
  log line can show.
- `app/` holds the state of a process, reads the flag `ABV_CACHE_DIAGNOSTICS`, asks
  session management about a request and writes the log.
- `tests/` runs the library.

All state is passed to the library explicitly. Exclusive access to it during an
observation makes the sequence number of the observation its arrival order.
