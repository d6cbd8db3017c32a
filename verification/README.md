# rusctp

A sans-io implementation of SCTP whose protocol core is verified with Verus.

## Layout

* `src/packet*` – the wire format: packets, chunks, parameters, state cookies, serial
  number arithmetic. Every parser and serializer is specified against a byte-level model,
  and reading back what was written gives the value again.
* `src/assoc*` – one association: the sending half (windows, congestion control,
  retransmission, timers, path MTU probing, shutdown) and the receiving half (reordering,
  reassembly, selective acknowledgements), each with its invariant and a model that every
  operation is stated against.
* `src/endpoint.rs` – the endpoint: the association handshake with signed state cookies,
  demultiplexing of incoming packets, and the queues of output for the associations and the
  network.
* `app/` – running the library on real clocks and sockets, a blocking endpoint and an
  endpoint for async code.
* `tests/` – tests of the library on concrete values.

Two calls leave the verified code: the CRC32c checksum (`crc`) and the random verification
tags and initial TSNs (`rand`).

## Tables and queues

The queues that are only filled at the back and emptied at the front (chunks and
notifications waiting to be handed out, user messages waiting to be sent, complete messages
waiting to be polled) are `VecDeque`s. The chunks in flight are a `Vec`: they are marked for
retransmission in place, and `VecDeque` offers no verified way to change an element where it
stands.

The verification tags of the associations are a `HashMap` keyed by the number of the
association id. The other tables of the endpoint are keyed by aliases (an address of the
user's own kind with two ports). Verus can say what a hash map holds only for keys whose
hashing and equality it knows; for these keys it cannot. So each of them is a vector of
key–value pairs with the invariant that no key occurs twice, and its view is a `Map`:
lookups, inserts and removals are proved against that map.

The receiving half keeps out-of-order chunks and fragments by TSN. TSNs wrap around, so their
serial-number order is no total order, and a sorted map keyed by the raw number would put a
TSN after the wrap before the ones just below it. The chunks are kept in vectors sorted by
their distance from the cumulative TSN instead, which is a total order on the window that can
be buffered, and the invariant says so.
