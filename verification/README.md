# Computer State

The verified core of Computer State, a local system-metrics monitor that
samples CPU, memory, process, uptime, network, storage and GPU metrics,
keeps a short history in SQLite and serves it over a read-only HTTP API
(`/metrics` in the Prometheus text format, `/latest` and `/query` as JSON).

`src/` is the library, verified with Verus:

- `catalog`: the thirteen metrics, their descriptors, and their identifiers in
  byte order;
- `settings`: the settings document, its defaults, migration and validation;
- `policy`: which peers may use the HTTP API (loopback, Tailscale, literal
  addresses);
- `duration`: relative durations (`30m`, `6h`, `2d`, `1w`);
- `query`: planning `GET /query` and dashboard history requests;
- `collect`: turning one run's system readings into samples;
- `exposition`: the Prometheus text format;
- `status`: the `/latest` answer and the service status;
- `storage`: the store's SQL, the labels column and the retention cutoff;
- `calendar`: RFC 3339 timestamps and calendar dates, through `chrono`;
- `sample`: samples, the key order of their labels and their ordering by
  time;
- `scheduler`: when to collect, announce, clean up and wait.

`app/` holds the desktop application around the library: the tray and the
window (Tauri), the HTTP server (Rocket), the SQLite store (SQLx), the system
readings (sysinfo and NVML), the settings file and the loop that runs the scheduler's steps.

`tests/` exercises the library on concrete values.
