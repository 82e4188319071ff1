# tmez

A system monitor with a graphical window (egui), split in two:

- `src/` — the library, verified with Verus: the navigation tabs, the
  performance sensors and their texts, reading the `Key : Value` listings of
  the processor and memory queries and the `letter|model` disk listing, exact
  number formatting (byte counts, cache sizes, uptimes), network and disk
  counter bookkeeping, bounded sample histories, and the ranking of the
  busiest processes.
- `app/` — the program: the window and its drawing, the PowerShell queries,
  sampling through sysinfo and NVML, and the floating-point smoothing of the
  readings. It hands plain values to the library and draws what comes back.
- `tests/` — tests of the library, among them comparisons of the integer
  formatting against the floating-point formatting it models.
