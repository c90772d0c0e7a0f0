# mj_tui

The state and rules of 墨简's terminal front end — a writing tool for long-form
Chinese fiction — as a library whose behaviour is stated in `requires` /
`ensures` contracts and proved with Verus.

## Layout

- `src/` — the verified library.
  - `editor/` — the text buffer (edits, undo/redo groups, selection, cursor
    movement by grapheme cluster, bulk replacement), soft wrapping and the
    viewport, the autosave policy, and the specification of UTF-8 text, lines
    and clusters they rest on. The rope is `ropey`'s; clusters come from
    `unicode-segmentation`, display widths from `unicode-width`.
  - `screens/` — the states of the shelf, the table of contents, the
    character list and form, the proofreading, search, history and diff panels,
    the command palette, settings, help, statistics and the smaller overlays.
  - `commands.rs`, `keymap.rs` — the command table and key bindings (parsing,
    defaults, user rebinding with conflict reports).
  - `editor_keys.rs`, `tree_keys.rs` — what a key does in the editor pane
    (with the `@` completion popup) and in the chapter tree; each panel in
    `screens/` has an `on_key` of its own, and `workspace.rs` says which of
    them gets a key.
  - `batch.rs`, `workspace.rs`, `status.rs`, `layout.rs` — batch jobs and their
    undo, workspace decisions (job scope, chapter stepping and moving,
    automatic snapshots), the status line and the screen layout.
  - `theme.rs`, `font.rs`, `doctor.rs`, `clipboard.rs`, `panic.rs` — colours,
    font control, the terminal report, OSC 52 encoding and crash buffers.
- `tests/` — tests run against the compiled library.
- `app/` — what the library does not do itself: reading the environment,
  writing escape sequences and files, parsing theme files, the crash hook, and
  the floating-point parts.

Laws that relate several operations are public proof functions named `law_*`.
