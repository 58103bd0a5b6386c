# Nazar

Nazar is a system monitor for AGNOS hosts: it reads CPU, memory, disk,
network, process and temperature figures from `/proc` and `/sys`, probes the
AGNOS services, raises alerts, and shows everything in a GUI, a terminal
dashboard, an HTTP API and an MCP tool server.

The decisions of the monitor form a library verified with Verus (`src/`):

- `text`, `json` — character-level parsing (words, lines, trimming, decimal
  numbers, replacement) and JSON text for the tool schemas.
- `procfs` — parsers for `/proc/stat`, `/proc/meminfo`, `/proc/diskstats`,
  `/proc/net/dev`, `/proc/net/tcp`, `/proc/[pid]/stat` and `statm`.
- `reader` — the delta-based readings kept between polls (CPU shares,
  disk I/O, network traffic, per-process CPU), mount parsing and memory
  figures.
- `ranking` — the stable sort of the process table.
- `thermal` — temperature sensors of the thermal and hwmon classes.
- `services` — the AGNOS services probed, host validation, probe addresses,
  probe outcomes, and the probe schedule.
- `alerts` — severities, the per-component alert cooldown, the severity
  filter, the capped alert history.
- `series` — bounded time series.
- `mcp` — tool definitions, tool names, the `nazar_config` and
  `nazar_history` requests, JSON-RPC methods.
- `tui`, `panels` — the terminal dashboard's state, key handling, layout
  decisions and labels.
- `metrics` — the metric records and the configuration.

`app/` holds the program around it: command line, /proc and /sys reading,
the HTTP client, SQLite storage, the anomaly detector and predictions
(floating point), the HTTP API, the MCP transport, and the GUI and terminal
front ends. `tests/` exercises the library.
