# terminalshooter

A short arena shooter for the terminal: clear five waves of enemies with a
shotgun, moving around cover and dodging attacks.

`src/` is the verified library. It holds everything that is decided on whole
numbers and text, each function with a contract that Verus proves:

- `world`: the arena grid, the breadth-first navigation field (with proofs
  that its distances are shortest walks, that following it descends, and
  that it reaches every floor cell), and the xorshift generator.
- `spawn`: where the enemies of a wave appear, with the proof that they stand
  on reachable cells far from the player and apart from each other, and
  that every wave of a run fills all its slots.
- `game`: screens and overlays, enemy kinds, wave composition, ammunition,
  health, scoring and the messages that report them.
- `input`: held keys, key repeat and release, debouncing, and the commands
  that each terminal event asks of the game.
- `pacing`: frame deadlines on a fixed cadence.
- `render`, `screens`, `hud`, `minimap`: the character frame, the menu
  screens, the heads-up display and the minimap, and the differential ANSI
  encoder with synchronized updates.
- `terminal`: a model of the terminal screen and its control sequences,
  with the proof that applying an encoded update to the screen that shows
  the previous frame makes it show the new one.
- `options`, `session`: the command line and the frame loop's decisions.

`app/` is the program around it: the terminal, the clock, the keyboard, and
the floating-point parts of the game (motion, ray casting, shading), which
call the library for every rule.
