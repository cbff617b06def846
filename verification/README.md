# ide_ui

The decisions behind the windows of a small IDE, written in Verus and proved
against their contracts: what a key, a click or a reply does to the state of
each window, and what the window asks of the rest of the application.

Drawing, layout and geometry stay with the screen; the library takes what the
screen measured (a byte under the pointer, the row that was hit, whether the
view scrolled) as plain values and answers with plain values.

## Layout

- `text`, `buffer`, `chars`, `fmt`, `paths`: text in bytes and characters,
  lines and columns, replacement of a stretch, and the few calls into `std`
  that the rest builds on.
- `editor`, `pares`, `edits`, `completion`: the code editor pane (cursor,
  selection, undo, marked occurrences, pointer gestures), the pairs that close
  themselves, edits that arrive from outside, and the completion list.
- `explorer`, `explorer_tree`, `context_menu`, `new_item`: the file tree, its
  menu and the dialog that creates a file.
- `git`, `rename`, `generate`, `inspection`, `debugging`, `settings`: the
  windows for the repository, renaming, generated accessors, inspection of
  values, breakpoints and the debug target.
- `split`, `tab_switcher`, `surfaces`, `keys`, `view_sync`: the two editor
  panes, the tab switcher, which window has the keys or the pointer, where a
  key goes, and what the drawing redoes at each frame.

Laws that relate several calls are public proof functions named `law_*`, in
the modules they speak of; laws about a single call are in its `ensures`.

The tests under `tests/` run the library on concrete values.
