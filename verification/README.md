# server_power_monitor

A power-telemetry monitor for Linux servers: it samples RAPL energy
counters, NVIDIA GPUs and disks, keeps daily and lifetime energy files,
draws a live terminal dashboard, publishes to MQTT (Home Assistant
discovery), sends Telegram reports and shares telemetry with other
monitors over an encrypted UDP mesh (ChaCha20-Poly1305).

## Layout

- `src/` — the library, verified with Verus:
  - `text.rs`: character-level string operations with exact
    specifications (trimming, splitting, decimal parsing and printing,
    text ordering).
  - `config.rs`: defaults, `KEY=VALUE` configuration lines, environment
    overrides, host label and file locations.
  - `sensors.rs`: sensor discovery from sysfs observations, display
    names, counter readings, RAPL wrap-around, disk power levels, power
    source status.
  - `state.rs`: the `state.env` counters (read, initialise, render), the
    daily and lifetime files' entries, history and retention selection.
  - `p2p.rs`: key derivation, datagram sealing and opening, and the
    cluster table (upsert, pruning, totals).
  - `tui.rs`: the bounded sample history, sparkline, dashboard rows and
    their colours and order.
  - `report.rs`: when reports and alerts are due, and what they list.
  - `mqtt.rs`: client id, topics and Home Assistant discovery entries.
- `app/` — the program around the library: file, process and network
  I/O, the async main loop, serde encodings and the floating-point
  figures (watts, kWh, costs).
- `tests/` — tests of the library on concrete values.
