# bsc_node

The decisions of a BNB Smart Chain node that are worth proving, written in Verus:

- `src/parlia/`: the search for the consensus snapshot of a block. It looks the snapshot up, walks
  back over the parents to one that has a snapshot (or bootstraps at a checkpoint deep in the
  chain), and applies the headers on the way. `query.rs` is the state machine, `laws.rs` what it
  comes to, `provider.rs` the cache in front of the database.
- `src/registry.rs`, `src/announcers.rs`, `src/failover.rs`, `src/range.rs`: the peers of the `bsc`
  protocol, who announced which block, and requests for ranges of blocks that go from peer to peer.
- `src/votes.rs`, `src/proxyed.rs`, `src/evn.rs`: to which peers votes go.
- `src/latency.rs`: which peer answers fastest.
- `src/evm.rs`: the environment in which a transaction runs, and that it is put back.
- `src/rex.rs`: notifications of the canonical chain in the shape that subscribers take.
- `src/peer_map.rs`, `src/lru.rs`, `src/channel.rs`, `src/primitives.rs`: what these are built on,
  with the few claims about `tokio`, `schnellru` and `alloy-primitives` that are not proved.

`app/` is the node around it: locks, channels, timers, storage, floating-point means and logs.
