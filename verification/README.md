# tukituki

A terminal UI and command-line tool for running a project's dev processes.
Each process is described by a `.run/*.yaml` file; `tukituki` starts them
all, keeps their logs, and lets you watch, restart and stop them from one
screen, or from scripts through headless subcommands with `--json` output.

## Layout

- `src/` — the library, verified with Verus. It holds every decision the
  program makes:
  - `config`, `target`, `dotenv`, `expand` — run files, `.env` and `$VAR`
    expansion;
  - `runtime` — settings layering (flag, environment, rc file, default) and
    what the subcommands print;
  - `state`, `pids`, `manager` — process records, the collector's PID
    ledger and port, how a target is launched, how a stop escalates from
    `SIGTERM` to `SIGKILL`, what a record becomes when its process exits;
  - `app`, `rows`, `view`, `logbuf`, `gate` — the TUI as a state machine
    from events to a new state and the manager calls it asks for, its
    sidebar layout, its texts and its log buffers;
  - `collector`, `severity`, `value` — rendering OTLP log records and
    filtering them by severity;
  - `shell`, `tail`, `text`, `strmap`, `fmt` — shared helpers.
- `app/` — the program around it: argument parsing, files, spawning and
  signalling processes, threads, the terminal and its event loop.
- `tests/` — tests of the library.

The library's public proof functions state the properties that hold across
calls (for example, that a shell-escaped word reads back as itself, that a
key press in a modal view never starts a process, that a stop always
settles, that the run targets come out sorted by name).
