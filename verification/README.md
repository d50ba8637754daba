# winfree

A desktop organiser for Windows: it lists the visible top-level windows,
lets the user move and resize them, and remembers chosen layouts per
program so that they are re-applied whenever the list is refreshed.

- `src/` is the library, verified with Verus:
  - `text`: decimal rendering and parsing as std's `to_string` / `parse`
    do it, padding, and character helpers;
  - `wide`: UTF-16 encoding with a terminating NUL, and reading a buffer up
    to its first NUL;
  - `order`: the order in which entries are kept (by name);
  - `item`: a listed window, its placement and one-line description;
  - `table`: name-ordered tables of entries (the window list and the store
    of remembered layouts);
  - `window`: what a refresh decides for each window, and the start-up
    registration check;
  - `form`: the editing form, how it is filled and read back;
  - `icons`: the two line icons.
- `app/` is the program around it: the tray icon, the dioxus window, the
  Win32 and registry calls, and the JSON layout file.
- `tests/` exercises the library on concrete values.
