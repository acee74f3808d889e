# block_pool

Bookkeeping of a pool of KV-cache blocks, written and verified in Verus.

- `src/inactive.rs`: blocks that no sequence uses. Registered blocks stay cached under their
  sequence hash and are evicted in the order of their metadata; the others wait in a queue.
- `src/active.rs`, `src/weak.rs`: blocks that sequences share, found by their sequence hash
  while somebody holds them, and the references by which they are found.
- `src/state.rs`, `src/dispatch.rs`: the two pools together, and the requests they answer.
- `src/matching.rs`, `src/touching.rs`, `src/registration.rs`: requests that depend on answers
  from elsewhere, as jobs that go on one answer at a time.
- `src/block.rs`, `src/metadata.rs`, `src/priority.rs`, `src/tokens.rs`: blocks, their handles,
  their metadata and the order of eviction.
- `src/kv.rs`: a cache block with its remaining reuses.
- `src/laws.rs`, `src/exclusion.rs`, `src/runs.rs`: what holds of the pools as a whole, and
  after any number of calls.

Believed without proof is what the standard library and tokio are asked to do: to make and
upgrade weak pointers (`src/weak.rs`), and to clone a channel and send on it (`src/block.rs`).
When a weak pointer can be upgraded is left open, so every contract holds whatever it answers.

`app/` runs the jobs on tokio: it asks the block registry, awaits blocks that come back and
queues blocks for offloading.
