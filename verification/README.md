# gos3lih

A per-device bandwidth monitor and throttler for Windows: it intercepts all
traffic, blocks or shapes it per device with token buckets, discovers the
devices of the local network, and is controlled from a desktop window over a
named pipe. It also checks for and applies updates of itself.

## Layout

- `src/` is the verified library (Verus). Every decision is made here:
  - `throttle.rs` token buckets and the per-address registry;
  - `engine.rs` what happens to each intercepted packet;
  - `state.rs` the devices, their policies and counters;
  - `ipc.rs` the control-channel requests and what the service does for each;
  - `ui.rs` the desktop window's commands;
  - `discovery.rs`, `frames.rs` reading the network configuration, ARP
    tables, ARP frames and NetBIOS replies, and building ARP requests;
  - `updater.rs` version comparison, release checking, unpacking the
    downloaded bundle, the swap script;
  - `net.rs`, `text.rs` addresses and text;
  - `tables.rs` the concurrent map the state is kept in.
- `app/` is the service program around the library: the packet driver loop,
  raw sockets, the named pipe, HTTP, the clock and the service plumbing.
- `tests/` runs the library on concrete inputs.
