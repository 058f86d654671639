# cbus

An in-process message bus with fixed-size 32-byte messages, verified with
Verus, and the resolver of the message protocols that describe the payloads.

## Layout

- `src/` — the verified library.
  - `config`, `error`, `defines`: the bus configuration and its validation.
  - `message`, `dst`, `subscriber`: messages and ids.
  - `buffer`, `buffer/runtime`: incoming and outgoing buffers of a fixed or
    a run-time capacity.
  - `lookup`, `routing`: the routing table and the preparation of messages
    (sender stamped in, group translated, sink for what is not allowed).
  - `plan`, `pool`, `dispatch`, `driver`, `bus`: the dispatch of queued
    messages to their receivers and the bus around it.
  - `protocol`: protocol documents (XML) read into definitions, and the
    resolution of the definitions into laid-out enums, wrappers and messages.
- `tests/` — tests of the library.
- `app/` — what stays outside the verification: error types with their
  messages, code generation with `quote`, and the expansions of the derive
  macros on `syn` syntax trees.
