# qexp

A file explorer for the terminal, built on the Quvyta framework (`qframe`). The decisions it makes
are a library verified with Verus; the screen, the disk and the programs it starts stand around
that library.

## Layout

- `src/` — the verified library, crate `qexp`:
  - `archive/` — which names are archives (`names`), which installed tool unpacks each format and
    with which arguments (`tools`), reading a zip's central directory for the password flag
    (`zip`), the hidden folder a tool writes into and what a tool's failure comes to (`mod`).
  - `favourites` — the favourites file, its parsing and writing, GTK bookmarks and percent-decoding.
  - `places` — which of the person's own folders the sidebar lists, in which order.
  - `cli` — what the command line asks for, and the exit codes.
  - `app/` — the screen's decisions: the keys (`mod`), moving between folders and the history
    (`nav`), the favourites list (`favourites`), how a file is opened (`launch`), the "Open with"
    dialog (`open_with`), the settings (`settings`), the layout (`view`) and the wallpaper
    (`wallpaper`).
  - `path`, `text` — paths as bytes and text as characters, with the few operations the rest needs.
- `tests/` — tests of the library on concrete values.
- `app/` — the program: the environment, the disk, running the tools and qdesk, and the screen
  drawn with `qframe`, each asking the library what to do.

The laws the library keeps are public proof functions beside the functions they speak of, such as
`favourites::written_list_reads_back`, `app::nav::back_then_forward_returns` and
`archive::names::numbered_names_differ`, `archive::names::format_ignores_ascii_case`,
`favourites::decoding_undoes_percent_encoding` and `favourites::bookmarks_are_taken_in_once`.
