# terminal-use (`tu`)

A headless virtual terminal for AI agents: spawn terminal programs in
pseudo-terminals, read their screens as text or images, and drive them with
keystrokes, pastes and mouse events.

## Layout

- `src/` — the library, verified with Verus. It holds the decisions and
  formats of the tool, each with a contract:
  - `keys` — key names (`Enter`, `Ctrl+C`, `Shift+Up`, …) to input bytes;
  - `mouse`, `mouse_cmd`, `actions` — mouse targets, the expansion of mouse
    actions into wire events, and their X10/UTF-8/SGR encodings;
  - `session` — the synthetic mouse tracker, screen text, scrollback tails,
    child status;
  - `emu`, `render` — screen cells, SGR re-emission, snapshots and text
    screenshots;
  - `monitor`, `viewer` — the live monitor's frames, tab bar, key decoding,
    incremental redraw and its state between frames;
  - `server`, `manager`, `report`, `cli`, `spawn`, `paths`, `version`,
    `self_update` — daemon answers, session naming and ordering, the
    client's reports, argument parsing, the child environment, file names and
    release checks.
  Calls into `regex`, `semver`, `unicode-width` and a few `std` functions go
  through small trusted wrappers. Where a result is simple to state (widths
  of ASCII text, lowercasing of ASCII, quoting of plain text, time and UTF-8
  decoding) the contract states it; elsewhere (regex matching and its error
  text, `Debug` escaping, `Path::with_extension`, semver ordering, Unicode
  tables) it only names the result as a function of the arguments.
  - `actions::plan_mouse_request` decides a whole mouse request: the
    refusals, the cursor's glide and the bytes to write; the program runs
    the glide and the writes.
- `tests/` — tests of the library on concrete values.
- `app/` — the program around the library: command line, Unix-socket daemon,
  PTYs, the terminal emulator, PNG rendering and the monitor's terminal I/O.

Each `law_*` proof function in `src/` states a property that spans calls
(for example, that a press never duplicates a held button, or that the
monitor's redraw of an unchanged frame writes nothing).
