# rtp_mux

The decision core of a dual-lane multiplexed session over a reliable UDP
transport, verified with Verus.

A session is made of two lanes: an interactive one, and a bulk one a port
above it. The accepting end admits lanes within limits, pairs them by the
nonce of their hello, and keeps at most two sessions of a peer's group at a
time, the older of which hands its streams to the newer. The dialing end
reuses sessions, dials within limits, explores alternative paths by probing,
and replaces a session by one over a better path, moving its streams along.

## Layout

- `src/` is the library. It holds no I/O and no clock: what happened goes in,
  what to do next comes out. Times are nanoseconds.
  - `admission`, `server`, `group`, `lane_rejection`, `accept_error`: the
    accepting end.
  - `connector` with `dial` and `session`: the dialing end, its limits, its
    attempts, and the streams on its sessions.
  - `explorer` with `path_score`, `probe_round` and `tuple_stats`: probing of
    paths.
  - `migrating_write_half`, `client_stream`, `stream`, `byte_count`: streams.
  - `lane_transport`, `shared`, `key`, `lane`: what lanes agree on.
  - `testkit`: payload verification and counting, timestamped frames, the
    handlers of tagged streams, sampled evidence of error correction.
  - `assoc`, `retain`, `text`, `addr`, `error`, `poll`, `task_scope`,
    `random`: what the rest is built from.
- `app/` is the asynchronous shell: sockets, tasks, timers, logging, and the
  arithmetic on floating-point numbers (averages, costs, margins, rates).
- `tests/` runs the library on concrete values.

## What is trusted

One function of the library is taken on trust: `random::random_u64`, which
draws a number with `rand::random` and of which nothing is claimed.
