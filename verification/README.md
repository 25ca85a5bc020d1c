# sniffer_core

The decisions of a packet sniffer that watches TCP handshakes on a Linux
interface, and of the relay that forwards the connections it watches, written
and proved in Verus.

- `src/bpf.rs`: classic BPF instructions, and what running a program yields.
- `src/filter_builder.rs`: an assembler that resolves labels to jumps.
- `src/filter.rs`: the filter that keeps the small TCP packets of the upstreams,
  and the proof that it keeps exactly those.
- `src/backend.rs`, `src/interface.rs`: how the packet socket is opened, and what
  is made of what the system reports for it.
- `src/relay.rs`: one direction of the relay, step by step.
- `src/listener.rs`: what the listener does about each event.
- `src/proto.rs`, `src/handoff.rs`: the commands to the sniffer, their sender, and
  the hand-over that allows a wake-up.
- `src/platform.rs`: the numbers of the operating system.
- `app/`: sockets, tasks and logging around these decisions.
