# nyado

A terminal todo list with tags, search, pinning, due dates and several
interface languages.

- `src/` is the library, verified with Verus: the task store and its file
  format, the ordering and filtering of the list, the command logic of the
  application, the editors behind the popups, the language tables and the
  layout rules of the screen.
- `app/` is the program around it: the terminal, the files on disk, the
  language files read with serde and toml, and the drawing with ratatui.
- `tests/` runs the library on concrete cases.
