# aetherd

A headless daemon that exposes Linux system telemetry (host, CPU, memory,
load, uptime, disks, network) through a versioned HTTP API.

The crate is split in two:

- `src/` is a library verified with Verus. It holds the `/proc` parsers
  (`system::{cpu, memory, load, uptime, host, network, disks}`), path
  resolution below configurable roots (`system::paths`), the interval metrics
  derived from consecutive samples and the per-section availability of a
  snapshot (`sampling`), the decisions of the HTTP contract (`api`) and the
  command-line arguments (`cli`). Every function states its result in its
  contract; `text` holds the character-level model (lines, words, trimming,
  decimal numbers) that the parser contracts are written in.
- `app/` is the daemon around it: configuration loading, file reads and the
  `statvfs` syscall, the background sampler, the HTTP server with its OpenAPI
  document and Server-Sent Events stream, and the floating-point figures
  (percentages, rates, seconds) computed from the integers the library returns.
