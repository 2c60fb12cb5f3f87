# m3u_filter

The verified core of the m3u-filter IPTV proxy, written in Verus.

- `src/` is the library. Every function carries a `requires`/`ensures`
  contract that Verus proves: playlist filtering, renaming, regrouping,
  duplicate removal, channel numbering and counters (`processing.rs`),
  the HDHomeRun wire format (`hdhomerun.rs`), byte size parsing and
  formatting (`size_utils.rs`), lenient JSON readers and the streaming of
  JSON arrays (`json_utils.rs`), movie info resolving (`xtream.rs`), what
  is stored for a target (`repository.rs`), the shared stream register
  (`streams.rs`), configuration helpers, paths, logging settings and
  token claims, and the step functions of a processing run. Calls into
  outside crates (`regex`, `crc32fast`) and a few std string functions
  go through small trusted wrappers whose doc comments say what is
  assumed of them.
- `tests/` runs the library on concrete values.
- `app/` is the program around it: command line, logging, configuration
  files, the HDHomeRun network listeners, JSON web tokens, and the loops
  that drive a processing run. Which input is fetched or which target is
  processed next, and what happens to each playlist, is decided by the
  library's step functions (`source_run.rs`, `target_run.rs`); app/
  performs the fetching, resolving and storing they ask for.
