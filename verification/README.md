# karukan

The verified core of a Japanese input method, written in Verus.

- `src/input_buffer.rs`, `src/evaluation.rs`, `src/romaji.rs`,
  `src/romaji_table.rs`: the composition record (one element per displayed
  character plus the caret) and the replay of romaji keystrokes into it.
  Among the proved laws: evaluation keeps the typed keystrokes (what F9/F10
  convert back to), typing keys one at a time equals evaluating them at
  once, settling leaves no keystroke live, and at every width settling
  displays the reading `settled_reading` returns.
- `src/fkeys.rs`, `src/range.rs`, `src/candidates.rs`: the F6–F10 fixed
  transforms, range conversion over the composition, and which commits are
  learned, by candidate source.
- `src/quality.rs`, `src/backend.rs`: the checks around kana-kanji model
  output — degenerate candidates, the echo filter for the context (proved
  idempotent), the prompt, the generation budget, and model source
  resolution.
- `src/user_dicts.rs`, `src/init.rs`: the user-dictionary watcher's change
  detection, path-order merge priority and check throttle, the choice of
  the system dictionary, the learning-cache setup step, and
  when models load.
- `src/kana.rs`, `src/half_width.rs`, `src/width.rs`, `src/text.rs`: script
  and width conversions.

`app/` holds the I/O around the library: file-system probes, the directory
scan for user dictionaries, the model-loading thread, logging. `tests/` exercises the library.
