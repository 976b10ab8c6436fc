# coapable

A CoAP (RFC 7252) endpoint library: message model and wire form, the
reliability layer (message IDs, tokens, retransmission with exponential
back-off, deduplication), per-peer sessions, the transport stack as a state
machine, a routing trie for servers, the client's request building, and the
table-keeping parts of OSCORE.

Layout:

- `src/` — the library, written in Verus; every function carries its
  contract and is proved. Encoding and decoding of datagrams is coap-lite's,
  randomness is rand's; both are reached through small trusted wrappers whose
  contracts are documented where they stand.
  - `codes`, `wire`, `message`, `path`: codes, the message model, requests
    and responses, URI paths.
  - `reliability`, `exchange`, `session`: allocators, retransmission state,
    outstanding exchanges, per-peer sessions.
  - `stack`, `stack_laws`: the transport's decisions (event in, state and
    actions out) and what they promise across events.
  - `context`: the decisions of the context variant, which sends callers'
    own messages and hands requests to the server as messages.
  - `router`, `handler`, `client`, `oscore`, `error`.
- `tests/` — tests of the library.
- `app/` — the runtime around it: the UDP endpoint task, the tokio tasks that
  drive the stack (and its context variant) and perform their actions, the
  async client and server, and OSCORE protection through liboscore.
