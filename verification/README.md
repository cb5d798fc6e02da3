# ipfee

Tracks, for a Solana validator, the transactions that each IP address sends
and the fees they land with, and blocks senders whose fees are too low.

- `src/` is the verified library (Verus):
  - `lru_model.rs`: a least-recently-used cache as a sequence of entries,
    with its operations and lemmas;
  - `caches.rs`: the `lru` crate's caches and the calls made on them, with
    their contracts over that model;
  - `stats.rs`: addresses, signatures, per-address statistics, the fee and
    duplicate updates and the blocking rule;
  - `schedule.rs`: whether the current slot is near a leader slot;
  - `blocklist.rs`: which senders get blocked and what that does;
  - `state.rs`: the tracker's state and its operations;
  - `timers.rs`: when the periodic work of the main loop is due;
  - `clock.rs`: the wall clock in milliseconds.
- `app/` is the program: argument handling, the TCP listeners, the RPC
  calls, ipset, and the JSON file.
- `tests/` runs the library on concrete values.
