# kv_dc_relay

A relay for one model in one data center. Workers report which cache blocks
they store and evict. The relay keeps, for every worker and rank, the exact set
of blocks that it owns, and publishes one cuckoo filter over all owned blocks:
a snapshot first, and then deltas of absolute bucket images.

- `src/` is the verified library. `state` is the aggregation, `actor` the
  serialized actor over it, `relay` what is reported and which dumps are
  accepted. `model`, `transitions`, `replacement` and `ownership` say what these
  do; `laws`, `runs` and `actor_laws` prove what holds of them as a whole:
  readers reconstruct the producer's bytes, deltas chain without gaps, owned
  blocks are never missed, replay converges, shutdown is final.
- The filter itself is in `config`, `addressing`, `bucket`, `mutator` and
  `window`, with the counting arguments in `occupancy` and `census`.
- `fx`, `memory` and `sorting` hold the calls into hash tables, the allocator
  and std's sort. Their contracts are believed, not proved.
- `app/` is the asynchronous side: the mailbox, the task that runs the actor,
  the reports as they leave the process, and the traits through which discovery
  and recovery feed the relay.
- `tests/` runs the library.
