# nvlink_partitioning

NvLink partition management for GPU hosts, written in Verus: the reconciliation
engine that keeps NMX-C partitions in line with what tenant instances ask for,
together with the rules around it (NMX-C client settings, endpoint registry,
NMX-C browsing, component backends and maintenance requests) and an in-memory
NMX-C for tests.

Layout:

- `src/` — the verified library. `monitor`, `context`, `operation` and
  `execution` hold the reconciliation pass and the carrying out of its
  operations; `iteration` splits a run by chassis; `sim` is the in-memory
  NMX-C; `nmxc`, `config`, `browse`, `endpoints`, `components` and
  `maintenance` hold the client settings, API handlers and component rules;
  `bodies` writes the JSON of browse answers;
  `model`, `keyed`, `seqs`, `text` and `time` are the shared data and
  helpers.
- `tests/` — tests of the library on concrete values.
- `app/` — process glue: configuration files, channels, the browse request,
  rack maintenance requests, the periodic loop and command-line output.

What `app/` leaves to the surrounding service: the database itself (the run,
browse and maintenance drivers take it as traits, with no database-backed
implementation here), the endpoint registry's database queries, exporting the
counts a run keeps as metrics, and TLS channels (HTTPS endpoints are refused,
as the gRPC stack is built without TLS support).
