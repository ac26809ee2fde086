# ai_proxy

A local proxy for AI model providers. Tools talk to the proxy; the proxy
rewrites their requests, picks a target from a model group, sends the request
to a backend process on another local port and turns to the next target when
one is overloaded or fails. Around it: the backend's installation, its
configuration and its process, the logins and account files of the providers,
their usage, and the saved contexts of sessions.

- `src/` is the library. Everything in it is verified with Verus: what each
  function returns is stated in its contract, and what holds across functions
  is stated in public proof functions.
- `tests/` runs the library.
- `app/` is the ordinary Rust around it: the HTTP server, files, processes,
  requests to the providers, and percentages in floating point. The hosting
  application is reached through the trait `Host` in `app/host.rs`.

What the library takes on trust stands next to the calls it makes: the clock
(`src/clock.rs`), JSON (`src/json.rs`), UUIDs (`src/uuids.rs`), header values
(`src/proxy_server.rs`), Unicode character classes (`src/saved_contexts.rs`),
small letters and regular expressions (`src/gemini.rs`), archives
(`src/install.rs`) and `String::push` (`src/text.rs`).
