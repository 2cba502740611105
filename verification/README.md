# leansticky_core

LeanSticky is a lightweight file-based sticky-note application: notes are
YAML files under one or more note roots, each edit is saved after an idle
delay together with a history snapshot, and the open note windows are
restored on the next start.

This crate is its core, verified with Verus:

- `src/` — the library. Models (`model`, `path`, `messages`), storage rules
  (`storage`: file layout, schema checks, note order, history pruning,
  bootstrap decisions, window restore), identifiers and timestamps from the
  `ulid` and `time` crates (`stamp`), and the desktop state machines
  (`autosave`, `activation`, `desk`). Each public function states its
  result in its contract; the laws that relate several functions are public
  proof functions named `law_*`.
- `tests/` — tests on concrete values.
- `app/` — the desktop program: file I/O, YAML (de)serialization, the
  platform directories, the single-instance check and the egui front end.
  It hands plain values to the library and performs what the library
  decides.
