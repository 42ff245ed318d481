# dir_scanner

A directory scanner with a web page and a terminal viewer, a small static
file server with a repository snapshot, and a Markdown renderer for the
terminal. The logic is a Verus library whose functions carry contracts
proved by Verus; the programs around it live in `app/`.

## Library (`src/`)

- `text`, `paths`, `size`: characters, paths as `std::path` reads them,
  and byte sizes in human units (exact integer arithmetic that matches
  what a 64-bit float gives).
- `order`: stable orderings by `slice::sort_by`.
- `scan`, `ranking`, `report`, `payload`: the scan of a directory tree
  (sizes, drawn tree, counts, largest files), the text report and the web
  page's data.
- `system`: machine facts shown in reports, and where reports are saved.
- `web`, `console`: the web server's queries and settings, the banner, the
  request log and the hotkeys.
- `tui`: the terminal viewer's state, keys and rows.
- `http`: the file server's requests, routes and responses.
- `repo`: the repository snapshot (settings file, ignore patterns, sizes,
  YAML text, git history).
- `run`: the command runner behind the guide's "Run" buttons.
- `markdown`: Markdown lines rendered in colour or plain.

## Programs (`app/`)

`app/main.rs` runs one of `web`, `tui`, `serve [root]` or `md`. It reads
the file system, runs commands, talks HTTP and draws the terminal, and
hands plain values to the library.

## Tests

`tests/` exercises the library on concrete values; the size formula is
also compared with the floating-point computation it stands for.
