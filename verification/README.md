# lumberjack

A file tree browser driven by vim-like key sequences, as a verified library
and a small SDL program around it.

- `src/` is the library, verified with Verus:
  - `fsnodetypes`: the list of lines shown (directories and files, each at a
    depth), opening a directory under its line and closing it again, and
    finding a line's parent directory.
  - `order`: the listing order (directories first, then by name bytes) and a
    stable sort.
  - `commands`: moving up and down, yank and paste.
  - `modality`: reading typed keys as command sequences (counts, targets,
    manipulations) and running them; the normal mode's input handling.
  - `render`: where lines, line numbers, the minimap and the status bar are
    drawn, which line is under the mouse, and how the view scrolls.
  - `iconhandler`: the icon theme setting, the icon cache per MIME type, and
    the search for an icon: which lookups to make, in which themes, and
    which answer to take.
  - `config`: colors and sizes.
- `app/` reads directories, MIME types and the icon theme setting, makes the
  icon theme lookups (with `freedesktop-icons`) that the library asks for,
  loads textures, and draws with SDL what the library lays out.
- `tests/` runs the library on concrete inputs.
