# nebula_cli

The verified core of NebulaCLI, a tabbed terminal emulator with Vim-like
insert and normal modes, and of its setup wizard.

- `src/` is the library, checked by Verus:
  - `text` — white space, trimming, prefix stripping, line splitting, decimal
    rendering and the few `String` calls they rest on;
  - `clock` — the wall clock, read through `chrono`;
  - `offsets` — where each character of UTF-8 text starts, and how inserting
    or removing a character changes the bytes;
  - `session` — one tab: input line and its cursor (a byte offset that always
    falls between characters), history, output,
    scrolling, selection, command entry and the results of background work;
  - `app` — the tabs and modes, and the effect of every key press and mouse
    event as a function from state and event to state and outcome;
  - `config` — the stored user name;
  - `installer` — the wizard's steps and the text it writes into the system.
- `app/` is the program: the terminal loop with `crossterm` and `ratatui`,
  the clipboard, PowerShell, file dialogs and the wizard window. Started as
  `installer`, the executable shows the wizard.
- `tests/` runs the library on concrete values.
