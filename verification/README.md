# cliprail

A clipboard history side bar (text and pictures, SHA-256 de-duplication,
pinning, drag ordering, date filters, daily archives, a global hotkey), with
its logic verified by Verus.

- `src/` is the verified library: the record list and its pinned-first
  order, loading and cleaning a stored history, content hashes and record
  ids, the calendar text of the date and time patterns it uses, hotkey parsing, grouping and counting by date, archive file names,
  which pixel buffers can be stored and decoding stored pictures,
  the clipboard watcher's decisions, and the window state machine that turns
  each user action into a new state plus the effects to carry out.
  `src/laws.rs` holds the properties proved across operations.
- `tests/` runs the library on concrete values.
- `app/` is the program around it: the egui window and its drawing, window
  geometry, timers, the clipboard thread, global hotkey registration, and
  reading and writing the `data/` directory next to the executable.
