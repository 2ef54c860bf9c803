# toggy

A Windows hook that switches a game's player count with a hotkey: on a
release of the configured key in the game's window, it reads the active
weapon set and writes the lower or the upper player count into the game.

- `src/` — the verified library (Verus):
  - `config.rs`: settings, the `toggy.ini` format (`[TOGGLE PLAYERS]`
    with `hotkey`, `lower_players`, `upper_players`) and how a file sets them;
  - `text.rs`: hexadecimal and decimal number parsing;
  - `module.rs`, `game.rs`: searching and listing a process's modules from
    what the system reports about them;
  - `hook.rs`: the hook's decisions as a state machine;
  - `utils.rs`: byte and UTF-8 helpers.
- `app/` — the DLL itself: entry point, hook procedure, system calls and raw
  memory access (Windows only).
- `tests/` — tests of the library.
