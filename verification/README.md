# bolt_routing

Routing and connection bookkeeping for a Bolt driver, verified with Verus.

- `src/framing.rs`: chunked framing of messages.
- `src/message.rs`: the kinds of response, and the RESET request.
- `src/connection.rs`: whether a connection may be used again.
- `src/calls.rs`: what is proved of it over any run of calls.
- `src/pool.rs`: which connections are kept, and when a new one is opened.
- `src/routing/`: servers and routing tables, the registry of what is known of
  them, the choice among them, and the search for a connection, which asks for
  a fresh table once when no server is left to try. `guarantees.rs` holds what
  is proved of a search as a whole.
- `app/`: sockets, timeouts and locks around all that.

The library does no I/O. A search is a sequence of steps: each says what to do
next, and what came of it is handed back for the next one.
