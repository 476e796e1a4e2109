# transcoder-core

The core of a transcoder between chat protocols and the Cascade engine of a
language server, verified with Verus.

- `src/text.rs`: searching and assembling text.
- `src/grpc.rs`: gRPC statuses and metadata values.
- `src/cascade/`: the client's requests (`client`), polling a conversation
  (`trajectory`, `poll`) and what holds of it as a whole (`laws`), reactive
  diffs (`reactive`), generated images (`image`).
- `src/mappers/`: the increments of a stream (`delta`), opening a stream
  (`engine`), chains of thought between tags (`vcot`), transcoding a stream
  (`transcode`).
- `app/`: connections, tasks, channels and files around the core.
- `tests/`: the core on concrete values.
