# trafmon

The verified core of trafmon, a small always-on-top desktop widget that shows
the current upload and download speed of one network interface and, on hover,
the processes using the network most.

`src/` is the library, checked by Verus:

- `monitor` — the monitoring state: which interface is watched (Wi-Fi first),
  the totals last seen per interface, bytes per second since the last refresh,
  the memory ranking of processes and the per-process network view. The
  machine's interfaces and processes are read through `sysinfo`.
- `netproc` — per-process (sent, received) byte counters fed by kernel network
  events, and the tracer's status flags.
- `procrates`, `rank`, `usage` — rates between two counter snapshots, and
  picking the largest entries of a list.
- `placement` — where the detail popup goes next to the widget.
- `sessions` — finding trace sessions left over from earlier runs in the
  session tool's listing.
- `tray` — tray menu wording in both languages, routing of menu entries, the
  About text.
- `table`, `text` — a name-keyed counter table and character-level string helpers.

`app/` is the desktop shell around it (Tauri commands and tray, the ETW trace
thread, Windows calls), and `tests/` exercises the library.
