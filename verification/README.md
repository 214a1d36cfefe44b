# den

A watcher for the git repositories under some folders: a terminal
interface of tiles, one per repository, and the logic behind a menu bar
panel. This crate is written in Verus: every function in `src/` carries a
contract that Verus proves.

## Layout

- `src/` — the verified library.
  - `text`, `paths` — characters, lines, numbers and paths, as `Path` reads them.
  - `repo` — one repository's state, and how git's answers are read into it.
  - `github` — remotes, GitHub pages, and what `gh` reports of CI and pull requests.
  - `order` — the order the tiles come in.
  - `model`, `brand`, `look`, `markdown` — what is shown: sort modes, colours,
    tiles, header, footer, palette, detail pane and rendered readmes, as styled lines.
  - `commands`, `tui` — the command palette and every transition of the terminal
    interface: keys, commands, background messages, refreshes.
  - `pathmap` — sets of paths, compared by components.
  - `session`, `bar`, `state`, `actions` — sessions, the menu bar's folders and
    settings, what its panel is shown, and what it opens.
- `tests/` — tests of the library on concrete values.
- `app/` — the terminal program: arguments, the disk, `git`, `gh`, the
  clipboard, the file watcher, and drawing with `ratatui`. It asks the library
  what to do and tells it what came of it.
