# udp-forward

A UDP forwarder for Linux whose decisions are verified with Verus. It forwards
packets to one or more destinations, optionally preserving the original sender's
address or capturing traffic without binding the listening port.

- `src/` is the library. It holds no sockets: it takes in what system calls
  returned, as plain values, and says what to do next.
  - `addr` and `socket`: addresses as numbers, and how a socket is set up.
  - `cli` and `supervisor`: settings, their checks, and what a worker's end means.
  - `worker::source`: receive buffers, capture filters, and packet parsing.
  - `worker::sink`: fan-out to every destination, the send loop, and grouping by
    sender.
- `app/` is the program: arguments, logging, threads, sockets, and system calls.
- `tests/` runs the library on concrete values.

IP and UDP headers are read by `pnet_packet`; `worker::source::wire` states what
is taken on trust of it. `cli` does the same for reading a number.
