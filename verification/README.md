# organizer

The verified core of a desktop file organizer that watches a folder and
sorts new files by user-defined rules.

- `src/` is the library, verified with Verus:
  - `rules`: conditions on a file's extension, stem and size, combined by
    `All`, `Any` or `NoneOf`, and the first active rule that applies;
  - `file_name`: stems and extensions as `Path` splits them, numbered
    alternatives for taken names, rename patterns, partial downloads;
  - `history`: the newest-first, bounded history of moves and its undo;
  - `scheduler`: deletions that fall due after whole days, and the sweep
    (a delayed Delete action first moves the file into the archive);
  - `path`, `path_map`: paths as sequences of components (Unix `/`
    separators) and a map keyed by the place a path names;
  - `watcher`: debouncing with back-off, recently undone files, and what
    follows each action of a rule;
  - `settings`, `text`: settings defaults and the character-level text
    operations the rest is built on.
- `app/` is the tauri application around it: commands, JSON files, the
  file-system watcher threads and the tray.
- `tests/` runs the library on concrete values.
