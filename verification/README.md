# caelum

A modal, plugin-based terminal text editor whose core is verified with Verus.

- `src/` — the verified library: dynamic values and their conversions, the
  event bus (queues, subscriptions, priority ordering, delivery), the key
  bindings' TOML configuration read into key-binding tries, text
  buffers with undo history and locks, the modal editing state machine, key
  patterns and key-binding tries, window layouts, frame composition and
  drawing commands. Every public function carries a contract; the `law_*`
  proof functions state what holds across calls (undo/redo, re-inserting
  removed text through the buffer plugin, splitting layouts, event order, key sequences).
- `app/` — the program around it: the terminal (crossterm), the background
  executor, reading the file `keymap.toml`, files, and the
  floating-point layout arithmetic.
- `tests/` — tests of the library on concrete values.
