# emucap (verified core)

The logic of emucap's emulator bridges, verified with Verus:

- `numparse`, `commands`: number literals (`123`, `0x7b`, `$7B`, `1_000`) and the
  `type:address:length:op:value` memory predicates of the command line.
- `ini`: setting `key = value` in the `[config]` section of Flycast's `emu.cfg`; `ini_laws`
  proves which lines stay, that a setting reads back from the section, and that setting it
  twice changes nothing.
- `flycast`: where the emucap-owned runtime copy of Flycast goes, where each OS installs
  Flycast and keeps its config, and the `emu.cfg` it is seeded with.
- `rsp`: GDB remote serial protocol framing, checksums, packet scanning and the steps of
  waiting for an acknowledgement, with the proof that a framed packet scans back to its payload
  whatever bytes come before it.
- `transport`: the `GdbTransport` trait and the bridge's errors.
- `bridge`: the PC-98 bridge's breakpoint requests (checks and backend commands), its
  breakpoint table (setting from the backend's reply, listing, clearing one or all) and event
  polling.
- `temporal`: combining an effect's outcome with its cleanup's.
- `track`: the current run of the experiment tracking server and its tools' answers.
- `fmt`, `text`, `number_laws`: renderings of numbers, character helpers, and the proof that
  printed numbers parse back.

`app/` holds the I/O around it: the TCP client for GDB stubs, the file work of preparing a
Flycast runtime copy and its config, the JSON shapes of breakpoint requests, and the tracking
tools over their ledger.
