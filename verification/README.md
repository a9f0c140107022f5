# simple_network

A small framed protocol for requests, responses and pushes over TCP or Unix
domain sockets, with an RPC layer on protobuf messages and a device hub.

- `src/` is the verified library (Verus): the packet format and its reader and
  writer, the receive-buffer framing, request keys and response routing, the
  decisions of clients and servers about channel events, RPC responses, callback
  tables, the choice of stream kind, and the hub's device registry. The proof
  functions named `law_*` state what holds across calls, such as that a packet
  is read back from its own encoding and that a stream of whole packets is read
  back in order and consumed whole.
- `app/` is the asynchronous runtime around it (tokio sockets, tasks, timers,
  locks, prost encoding), which performs the I/O and follows the library's
  decisions.
- `tests/` exercises the library on concrete values.
