# wsl_manager

The verified core of a manager for Windows Subsystem for Linux instances.

`src/` is the library, checked by Verus:

- `text` — the character-level model (Unicode whitespace, trimming, splitting,
  `str::lines`, substring search, `u8` parsing, UTF-8 byte offsets).
- `models` — instances, their state, the version report and its field map.
- `error` — `WslError` and its display text.
- `listing` — `wsl --list --verbose`: column location by header, byte-range
  slicing, the table parser, and the check that a listing can be parsed.
- `output` — the online list, `/etc/os-release`, the running list, addresses.
- `version` — `Key: Value` fields, keyword lookup, the merged version report.
- `decode` — decoding of command output (UTF-8/UTF-16 marks, zero-byte UTF-16,
  UTF-8, GBK).
- `commands` — name validation, the whitelisted argument lists, the reading
  of exit statuses, locating `wsl.exe`, and the per-operation decisions.
- `rename` — renaming as a state machine (list, stop, export, import, default,
  unregister, clean up).

`app/` runs the processes: it performs what the library decides and feeds the
outcomes back, and offers the operations on the command line as JSON.
