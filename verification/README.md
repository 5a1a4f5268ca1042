# Matrix HTTP rendezvous

A rendezvous server over HTTP: two parties exchange small payloads through sessions that live for a
short time. Its core is a library that is verified with
[Verus](https://github.com/verus-lang/verus).

- `src/` is the library: the sessions and their entity tags (`sessions`, `entity_tags`,
  `base64url`), the identifiers (`identifiers`), the eviction of the oldest sessions (`eviction`),
  the conditions and media types of requests (`conditions`, `content_types`), how requests are
  answered (`handlers`), and what holds of the store as a whole (`laws`).
- `app/` is the server around it: the routes, the tasks that delete and evict sessions, the command
  line, and the module for Synapse.
- `tests/` are the tests of the library.

Sessions are not kept over restarts, a server does not share them with others, and its use needs no
authentication.
