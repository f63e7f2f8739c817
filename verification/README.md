# rustty_bird

A terminal Flappy Bird. The library (`src/`) holds the game's logic with
Verus contracts; the program (`app/`) reads the keyboard, keeps the clock and
the bird's floating-point physics, and sends the library's drawing commands to
the terminal through crossterm.

Library modules:

- `color` – the terminal palette and how colors darken.
- `cell` – one character cell.
- `screen_buffer` – the double-buffered screen: `set`, `get_bg_color_at`,
  `clear_next` (the sky gradient) and `flush`, which returns the commands that
  repaint exactly the cells that changed. Its contract is stated against a
  model of the terminal (`replay`).
- `pipe`, `pipes_manager` – pipes, their random gaps (`rand`), collisions,
  scrolling, spawning and drawing. A pipe's position is kept in the caller's
  numeric type `P`; the caller supplies the motion (`step`), the placement of a
  new pipe (`place`) and the per-channel darkening (`scale`).
- `scoring_system` – the score and its board.
- `bird` – the bird's column and sprite.
- `game` – key handling, collision, scoring a passed pipe, and one frame
  (`Game::advance`), whose contract describes the whole frame drawn.
