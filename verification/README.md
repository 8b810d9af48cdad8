# project_sorter

A desktop utility that sorts dropped media into client folders on a NAS,
split into a verified library and a thin desktop shell.

* `src/` — the library, written in Verus and verified:
  * `modes.rs` — sort modes, their destination folders, accepted file
    types and automatic mode detection;
  * `naming.rs` — the Premiere project name of a client and collision-free
    destination names (`clip.mov`, `clip__2.mov`, ...);
  * `sorting.rs` — which dropped files take part in a batch, the plan for
    each file, the entries recorded and the tally of a batch;
  * `batch.rs` — a batch in progress, file by file: one entry per file, in
    order, with the work on disk left to the caller between steps;
  * `undo.rs` — undoing the last batch;
  * `log.rs` — the CSV log: fields, rows, log file names and pruning;
  * `clients.rs` — the client folder template, scanning and listing
    clients, and the checks before creating, repairing or opening one;
  * `watch.rs` — watching the project root and debouncing notifications;
  * `order.rs` — stable ordering by key;
  * `text.rs` — character-level helpers;
  * `clock.rs` — the instant used for time stamps and log dates;
  * `env.rs` — the clock, the local time zone, the user name and the
    platform's error codes.
* `tests/` — tests of the library.
* `app/` — the Tauri shell: file-system work, the folder watcher and the
  commands called by the front end.
