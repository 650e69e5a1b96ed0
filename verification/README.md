# hord: HTTP over RDMA

A byte stream over RDMA queue pairs that carries unmodified HTTP/1.1, with
response bodies that can be written straight into the client's memory. The
protocol is verified with Verus; the NIC is driven by ordinary Rust around it.

## What is proved

- `wire`, `envelope`, `handshake`: the formats, with their round trips.
- `config`: queue sizing and negotiation; both ends reach the same result.
- `stream`: the credit-controlled stream. Each operation has an exact contract
  over `StreamState`. `stream/laws.rs` states what operations keep, and
  `stream/link.rs` joins two ends: whatever work requests the queue pairs refuse,
  what is read is a prefix of what was written, and a quiet connection has
  delivered everything.
- `gather`, `stream/rdma_write.rs`: how a fragmented source is packed into work
  requests and batches, and how a write is driven until nothing reads its source.
- `zerocopy`, `transfer`, `pool`: the header, the policy, the transfer and the
  buffers it is written from.
- `http`, `range`, `pattern`, `server`, `client`: message heads and bodies, byte
  ranges, test objects, and what the demonstration programs decide.
- `acceptor`, `reactor`, `cm`: the decisions of the accept loop, of the reactor
  and of connection setup and teardown.

The library does no I/O. An operation that posts work requests comes as a plan
and a commit: the plan says what to post, the commit takes how much was accepted.

## Layout

- `src/`: the verified library.
- `tests/`: tests, among them two streams joined by an in-memory fabric.
- `app/`: the transport on `sideway`, the `tokio` adapters, the listener and the
  demonstration servers and clients. It needs a `sideway` that also wraps
  `rdma_migrate_id`, `rdma_reject` and `rdma_get_peer_addr`.
