# Switchyard

Switchyard is a local, provider-agnostic gateway. A client talks to one stable
local endpoint that speaks the Anthropic Messages protocol; Switchyard selects
the configured upstream provider and model.

- `src/` is the library. What the gateway decides stands here, with contracts
  that Verus proves: validation of the configuration, resolution of models, what
  is sent upstream and when it is sent again, the reading of event streams, what
  clients are answered with, fallbacks, and the counting of usage.
- `app/` is the program: the HTTP server, the clients that reach the providers,
  the command line, files and environment variables.
- `tests/` run the library.

What other crates do for the library (reading and writing JSON, parsing URLs,
checking header names and values, making request ids) stands behind a few small
functions marked `external_body`; the comment above each says what is relied on.

Provider credentials stay in environment variables or in a private file beside
the configuration. They are never logged.
