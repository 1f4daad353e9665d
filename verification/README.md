# imebind

Switches the Windows input method (TSF) by the foreground program: a rule
`program.exe = LLLL:{CLSID}{ProfileGUID}` in `rules.txt` makes the program's
input method active while it is in the foreground, and the input method the
user had comes back when it leaves, when switching is paused and on exit.

## Layout

- `src/` — the verified library (Verus):
  - `hex.rs`, `text.rs` — hexadecimal fields as `u16::from_str_radix` reads
    them; zero-padded numerals and the string helpers the rest builds on.
  - `tip.rs` — the TIP text `LLLL:{GUID}{GUID}`: formatting, reading (with the
    exact error, and the inputs on which reading would slice out of range),
    `tip_laws.rs` — that formatting and reading undo each other,
    `tip_case.rs` — that reading does not depend on letter case.
  - `tsf.rs` — the text of the active input method (TIP or `LLLL:HKL:…`), the
    keyboard-layout form, and picking the keyboard input methods out of an
    enumeration.
  - `rules.rs` — `rules.txt`: lines, comments, a UTF-8 byte-order mark,
    skipped lines with their notices, one rule per program, lookup by program
    name without regard to case; `rules_laws.rs` — comments and blank lines
    are skipped, names are trimmed and free of `=`, TIP text is upper case;
    `template.rs` — the commented rules.txt written when it is missing, which
    reads as no rules.
  - `switcher.rs` — the decisions of the resident program as a state machine
    (poll, pause, quit, reload → actions), `switcher_laws.rs` — what it keeps.
  - `tray.rs`, `cli.rs`, `log.rs` — the tray menu and its commands, window
    messages, UTF-16 text for Win32, the command line, the log line format and
    rotation limit.
- `tests/` — tests on concrete values.
- `app/` — the Windows program: COM/TSF calls, the tray icon and message loop,
  files and the console. It hands plain values to the library and carries out
  the actions it returns.
