# grit

Work across many git and dolt repositories from anywhere, by alias: a
registry of named repositories, a dashboard of their state, a card for one
repository in depth, passthrough of any command to one repository or a
tagged group, and a shell integration: in zsh the dashboard is drawn under
the line being typed after a pause, and in zsh, bash and fish ^G^P draws it
on demand and ^G^G opens a repo picker (with fzf).

## Layout

- `src/` is the library, verified with Verus: the registry and its file
  format, the parsers for what git and dolt print, the table layout and its
  highlight ranges, the SVG renderer, the shell startup-file editing, and
  the text every command prints. Each public function states what it returns
  in its contract, over spec functions and views; the laws that tie several
  functions together are public proof functions named `law_*`.
- `app/` is the program around it: argument parsing, files, the
  environment, spawning `git` and `dolt`, threads, and JSON and TOML.
- `tests/` exercises the library on concrete values.

Calls into other crates (terminal colours, display widths, the clock, the
home directory, the terminal size) go through small trusted wrappers whose
contracts say only what those crates document.
