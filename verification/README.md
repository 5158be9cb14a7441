# rattan_core

The verified core of an Internet path emulator, and the program around it.

A channel joins two sides by a chain of cells in each direction. A cell limits the rate of
packets, delays, loses, duplicates, reorders, records or routes them. The library decides; the
program waits, sends, draws and computes in floating point.

- `src/cells`: the cells and the queues in front of a link (infinite, drop tail, drop head,
  CoDel, RED, PIE), token buckets, the router, virtual Ethernet devices and their log.
- `src/devices`: queues that mark packets (FQ-CoDel, PIE, DualPI2) and the device that
  duplicates packets.
- `src/config`: how a channel is described, on the command line, in a file or between
  containers, and how traces are read.
- `src/control`: what is answered over HTTP.
- `src/headers.rs`, `src/packet.rs`, `src/time.rs`, `src/parse.rs`, `src/text.rs`: what the rest
  is built on.
- `tests`: scenarios in concrete numbers.
- `app`: the program. It carries frames in UDP datagrams, runs one task for each cell and asks
  the library what to do at each event.

Every function of the library states in its contract what it returns and what it changes.
Statements that relate several functions are proof functions whose names begin with `law_`.
Calls into outside crates (`etherparse`, `bitfield`, `ipnet`, `netem-trace`, `rand`,
`siphasher`) stand in small wrappers that say what is believed of them.
