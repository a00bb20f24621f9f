# simple_network

Networking building blocks in the style of Erlang/OTP, with the logic
verified by Verus.

## Layout

- `src/` — the verified library.
  - `algorithms/` — distributed algorithms: OR-Set CRDT, Kademlia-style DHT
    routing table, gossip, the follower side of Raft, SWIM membership,
    two-phase commit, vector clocks. Each comes with its contract over a
    mathematical model and with public proof functions for its laws
    (merge is commutative/associative/idempotent, one vote per term, commit
    only once every listed participant voted to commit, dead stays dead
    within an incarnation, ...).
  - `patterns/` — `gen_server` and `gen_statem` connection state machines,
    request framing, the `net_kernel` node table, publish/subscribe framing
    and peer pruning.
  - `transport/` — length-prefixed framing, I2P SAM v3 command building and
    reply parsing.
  - `security/` — the decisions of the post-quantum channel: pin checks, key
    directions, key-derivation input, record sequence numbers.
  - `collections.rs`, `text.rs` — association-list maps and the string
    helpers the parsers use.
- `app/` — the asynchronous runtime around the library (tokio sockets, TLS,
  UDP, the server loops driven by the verified state machines, the C and C++
  bridges, the Tor and PQC carriers). It performs what the library decides.
- `tests/` — tests of the library on concrete values.
