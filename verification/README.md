# tuipo

A spell-check overlay for terminal programs. It wraps a command in a
pseudo-terminal, follows what the user types and what the program draws, and
underlines misspelled words where the screen shows them. On request it types
corrections into the program's input.

The library under `src/` is written in Rust and verified with Verus. Each
function states in its contract what it returns and changes; laws that span
functions are public proof functions beside them.

- `buffer`, `input`: the line being typed, and its issues
- `spell`, `lintable`, `dict`: findings of the linter, the texts it can be run
  on, and which findings count
- `fix`, `pty`: corrections as keystrokes, and what happens to each typed byte
- `screen`, `grid`, `echo`: the screen as the program draws it
- `ansi`, `paint`, `picker`, `status`, `render`: what is drawn on top of it
- `config`, `init`, `debug`, `clock`, `event`, `text`: settings, the shell
  hook, the log, time, events and text helpers

The terminal escape parser (`vte`), the linter (`harper-core`) and the parser of
the settings file (`toml`) are called behind small items whose contracts are
stated and not proved; their doc comments say what is claimed.

The program itself is under `app/`: arguments, files, environment, threads and
the terminal.
