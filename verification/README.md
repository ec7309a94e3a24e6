# block_weave

A small framework for trading algorithms built from blocks, written in Verus.

A block reads its input from named channels of a registry, steps from a state
to a new state, writes its output back to channels and asks for orders through
intents, one per order slot. Stored blocks are woven together: the channels
they read and write decide the order they run in, and a channel written twice,
a missing producer or a cycle is reported. Actors run an algorithm each tick and turn its intents into
orders; a controller routes market updates to the actors that depend on a
contract and drops the actors that fail.

## Layout

- `src/` — the verified library.
  - `registry.rs`: the channel registry (`put`, `get`, `ensure`, `write`).
  - `graph.rs`, `weave.rs`: dependency graphs, topological order, weaving.
  - `block_spec.rs`, `channel_keys.rs`, `block_type.rs`: blocks, their keys,
    readers and writers, stored and woven blocks.
  - `after_block.rs`, `delete_block.rs`, `simple_order_block.rs`,
    `sniper_block.rs`, `adder_block.rs`: the block kinds.
  - `actor.rs`, `controller.rs`, `keyed.rs`: actors, their order and effect
    buffers, and the controller with its maps.
  - `trade_types.rs`, `intents.rs`, `effects.rs`, `execution.rs`,
    `execution_plan.rs`, `errors.rs`, `text.rs`: vocabulary and shared traits.
- `tests/` — tests run against the compiled library.
- `app/` — JSON reading and writing of stored blocks (serde), files.
