# scheduler

A verified library for a small cluster that runs neural-network inference
inside SGX enclaves. A scheduler keeps a table of models, a queue of waiting
users and a queue of worker enclaves with their busy flags; users and workers
talk over TLS in length-prefixed frames, and the payload to a worker is
sealed with an AES-GCM tag.

- `src/master.rs`: the scheduler's state and operations, with a view as
  mathematical values and the laws of its operations.
- `src/text.rs`: character-level string helpers (equality, prefixes,
  splitting), with the split/join law.
- `src/message.rs`: reading requests and worker assignments from
  zero-padded buffers, and the scheduler's answers.
- `src/frame.rs`: big-endian length fields and sealed frames.
- `src/quote.rs`: Base64 quote bodies and the identity fields of a quote.
- `src/config.rs`: line-based and JSON configuration.
- `src/clock.rs`: millisecond time stamps.
- `src/attestation.rs`: the result of a remote attestation.
- `app/`: the programs (scheduler server, workers, user client) around the
  library: sockets, TLS, model execution and attestation.
