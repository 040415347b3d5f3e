# railscale

The wire formats and decision logic of a scriptable network service,
verified with Verus: DNS messages and a prefix-rule resolver, the passenger
decoders that split the head of an HTTP, TLS or raw TCP stream into ticket
fields, the streaming HTTP head codecs with header rewriting, request-line
routing, and the small state machines that the servers run.

Layout:

- `src/` — the verified library. Each module states its behaviour in
  `requires`/`ensures` over spec functions; the `*_laws` modules hold the
  properties that span functions (round trips of names, questions and
  headers, stability of decoding under appended input, what the resolver
  answers).
- `tests/` — unit tests of the library.
- `app/` — the servers: sockets, async streams, timers, metrics and
  sampling, driving the library's step functions.
