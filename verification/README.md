# nvmd

A native Markdown preview for Neovim, with Mermaid diagrams. The window follows the editor's
cursor, reloads when the file or the editor's snapshot changes, and is driven from the
keyboard.

The crate is split in two:

- `src/` is the library, verified with Verus: the Markdown model and parser (over
  pulldown-cmark's event stream), plain text and search, heading anchors, alerts, formula
  text, the styled runs of inline text, table column weights, image paths, the command palette, keyboard navigation between diagrams,
  cursor following, the Mermaid cache keys and job bookkeeping, the text work of the ER
  table overlay, and syntax-highlight runs. Each public function states what it returns in
  its contract; laws that relate several calls are proof functions next to the code.
- `app/` is the program around it: command-line handling, the egui window, file I/O and
  watching, the floating-point layout of diagrams, and rasterizing.

`tests/` holds the library's tests.
