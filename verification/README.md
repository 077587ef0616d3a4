# h2_priority

Request priorities for HTTP/2 client connections, verified with Verus.

A request that carries a `RequestPriority` joins the exclusive dependency chain
of its connection. The chain is ordered by encoded weight (`0..=255`), highest
first. A request depends on the last live stream in the nearest band at or above
its own; streams of equal weight keep their opening order. The weight can be
changed while the request is in flight. PRIORITY frames are queued only where
the parent of the stream changes, and the child of the stream is reconnected
before the stream itself moves.

## Layout

- `src/frame.rs`: stream numbers, dependencies, PRIORITY frames.
- `src/order.rs`: the chain as a sequence, and what moving a link in it means.
- `src/chain.rs`: the chain as a data structure; its type invariant is that the
  bands never rise.
- `src/store.rs`: the streams of a connection, its chain, its queued frames.
- `src/connection.rs`: the state that a control shares with a connection.
- `src/control.rs`: `RequestPriority`, and binding it to a stream.
- `src/sync.rs`: locks, weak references and wakers. Everything that is trusted
  rather than proved stands here.
- `src/tree.rs`: the dependency tree that the peer keeps (RFC 7540, section 5.3).
- `src/laws.rs`: what holds of the library as a whole; among others, that the
  tree of the peer follows the chain through every opening, change and closure,
  and that a control reads back the weight that it was given last.

Locking is not reentrant: a thread that holds a control, by way of
`RequestPriority::for_request`, must give it back before it uses it again.
