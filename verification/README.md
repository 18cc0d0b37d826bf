# stethoscope

Read-only observability for Linux machines, served to a model over MCP: a
handful of tools that each answer one question about a target machine
(identity, resource contention, filesystem capacity) with normalized,
structured numbers and never a shell.

## Layout

* `src/` — the library, verified with Verus. Every parser, rule and
  formatter the server and its probes run lives here with its contract:
  * `guard` — the allowlist that decides which paths may be read or listed;
  * `proc`, `system_health`, `system_info` — the kernel virtual-file and
    `uname(2)` parsers and the integer figures they yield;
  * `mountinfo`, `storage`, `storage_health` — mountinfo parsing, the
    `statfs(2)` classification and the storage report;
  * `prologue` — the probe rules (`judge`), the read/write/exec chain as a
    state machine, digests and the model-facing failure text;
  * `payload`, `path`, `target`, `time`, `text` — supporting pieces;
  * `probe_size` — the hand-written JSON writer of the size-measurement
    probe;
  * `release` — the release build's remap rules and its check that no build
    path survived.
* `tests/` — tests of the library on concrete values.
* `app/` — the server and the probes' I/O: the MCP surface, gathering file
  facts, placing and running probes, and reading `/proc`. Every decision it
  acts on is a library call. The same binary runs one probe collection with
  `stethoscope-mcp probe storage|system-info|system-health`.
