# reliable_udp

Reliable byte streams over UDP.

- `src/` is the verified core. It cuts written bytes into numbered packets, keeps
  packets until they are acknowledged, puts arriving packets back in order, and
  decides when a packet may be sent, when the sending rate moves and when a
  handshake succeeds. `src/laws.rs` states what holds of both ends together: what
  is read is a prefix of what was written, however packets are lost, repeated or
  swapped, and all of it once every packet has arrived. `src/receiver_laws.rs`
  states the order of the stream of the receiving end alone, whatever packets carry.
- `app/` is what the core needs around it: sockets, clocks, floating-point rates
  and the traits through which rate estimates, tokens, packet times and the
  dispatch of packets come in.
- `tests/` runs the core.
