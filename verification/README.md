# keeper

Off-chain keeper for a market of dormant buckets on Solana: it decodes the
accounts of a market, plans what is to be done about its buckets, builds the
instructions, and submits them while it holds the on-chain leader lock.

The library under `src/` is verified with Verus:

- `molemath` — checked fixed-point arithmetic with explicit rounding.
- `wire`, `decoder` — account and instruction layouts, the leader lock, the
  schema descriptor, and the functions offered to JavaScript.
- `planner` — the scheduler, the price window, the walk of the risk model over
  the sub-pools, the plan cycle, and what plans promise as a whole
  (`planner::complete`).
- `rpc` — fetching accounts, snapshots, instruction building, the list of
  markets, seeds, and the replies of a Solana node.
- `bot` — ticks, loop decisions, leadership, metrics, HTTP responses, several
  markets under one daemon, and the command line.
- `text`, `base58`, `order`, `ids`, `table` — what the others are built from.

`app/` is ordinary Rust around it: the loops, the sockets, the clock, the
floating-point risk model, and the Solana adapter. `app/wasm.rs` is the root
of the build for JavaScript.
