# sraft

A small Raft replication core with machine-checked contracts.

- `src/raft/state.rs`: one node's state machine. Each handler takes an event
  (timeout, vote request or response, client command, log request or response,
  crash, peer discovery). It returns the node's reply and the actions for the
  runtime: messages to send, messages to queue for itself, and committed
  commands for the application.
- `src/raft/model.rs`: the abstract node. The handlers' contracts are stated
  over it.
- `src/raft/laws.rs`: what holds of every handled event. Terms and commits
  never go back, a node votes once per term, only a candidate holding votes
  from a strict majority of the cluster leads, an accepted log request keeps
  the prefix it builds on, a leader only appends, and the node invariant
  holds.
- `src/raft/cluster.rs`: many nodes stepping by the handlers' specifications
  over a network that loses, repeats and reorders vote responses. In every
  run, terms never go back, a node grants its vote in a term to one
  candidate only, and two leaders of one term are the same node.
- `src/raft/known.rs`: the ids a node knows, kept in a `BTreeSet` and read
  in increasing order.
- `src/raft/transformers.rs`: conversions to and from the RPC wire form, and
  proofs that reading a message back gives it again.
- `src/raft/application.rs`, `src/raft/clientman.rs`, `src/raft/client.rs`,
  `src/cli.rs`: the key-value front end's decisions, the choice of peers to
  dial, what a peer connection does after each connect attempt, and the
  options.
- `app/`: the actors, the gRPC service and client, the HTTP front end, the
  key-value store and `main`. These carry out what the library decides.
