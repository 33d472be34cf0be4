# texteditor_plugin

A text editor that presents text files as lists, for Sicompass.

Folders are walked as lists of their entries. A file is a list of its lines;
indentation and braces in Python, C-family, Rust, Go, JavaScript and TypeScript
files become levels. Each element carries the number of its source line, so an
edit goes back to exactly that line. Every edit is written to disk, and line
edits and deletions can be undone and redone.

## Layout

- `src/` is the library. It is verified with Verus and touches no disk: a method
  that needs the disk takes what it has to know as an argument and gives back a
  step for the caller to carry out.
  - `state` is the model: what the editor knows and how each action changes it.
  - `editor` is the editor itself, `TextEditorProvider`.
  - `parse` reads files into element trees, `listing` shows folders,
    `timeline` records changes, `settings` reads the saved start folder.
  - `text`, `tags`, `paths` and `ffon` are what those are made of.
  - `line_laws`, `tree_laws` and `edit_laws` state what holds of files, of
    element trees, and of edits with their undoing and redoing.
- `app/` is the provider that runs the editor on the real disk.
- `tests/` runs the library, on a disk in memory where it needs one.
