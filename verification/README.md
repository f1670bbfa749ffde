# pcs-service

The coordination layer of a distributed pipeline service, with its rules
stated as contracts and proved by Verus.

A cluster agrees on a log of commands. The commands register batches of rows,
hand ranges of those rows to workers under leases, record checkpoints and take
back what a crashed worker held. Around that state machine stand the log and
snapshot stores, the wire protocol between nodes, a store on TiKV with the same
claims, the loop of a worker, and the views an operator reads.

## Layout

- `src/consensus`: commands and responses, the tables they change and which rows
  of them, the laws the tables keep, the log stores and the decisions of a
  consensus node.
- `src/transport`: frames, the connection pool with its circuit breaker,
  proposal forwarding and snapshot transfer.
- `src/tikv`: key layout, claim scan and lease rules of the TiKV store.
- `src/runner.rs`, `src/checkpoint.rs`: the worker's loop as a machine of
  events and actions, and what it saves.
- `src/inspector`, `src/metrics.rs`: series, edge rates, traces and instrument
  names.
- `src/io.rs`, `src/ipc.rs`: framing of incoming batches, JSON lines, and the
  look over a stream before it is decoded.
- `src/text.rs`, `src/order.rs`, `src/sort.rs`, `src/table.rs`: texts, byte
  orders, sorting and the ordered table the rest is built on.
- `app`: sockets, files, databases and telemetry around the library.
- `tests`: the library's tests.

`src/consensus/model.rs` says what each command does; `src/consensus/laws.rs`
proves what holds of every sequence of commands. Functions marked
`external_body` call another crate, and their comments say what is taken from
it without proof.
