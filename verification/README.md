# Sleeve

A desktop editor for the tags and covers of MP3, FLAC and M4A files, whose core
is verified with Verus.

- `src/` is the verified library: tag drafts and their validation, the file tree
  and its flattening, album detection, stream-fact formatting, the plan of a tag
  write, backup paths, undo and redo history, the decisions of the editing
  session (selection, staging of batch edits, what may run while saving), the
  step-by-step runs of saves, undos and redos, translations, and the cache of
  blurred cover backgrounds.
- `app/` is the GTK window (Relm4 and libadwaita) and the file-system, tag-library
  and stream-probing work that the library asks for.
- `tests/` exercises the library.

Translations are read from `assets/lang/<language>.json` (or the bundle's
`Resources/lang`, or `share/sleeve/lang`); a missing key shows as itself.
