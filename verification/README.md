# Vector Storm

A twin-stick arcade shooter. The game rules are a Verus-verified library
(`src/`); the window, input devices, floating-point physics, drawing and
audio output are an ordinary Rust program around it (`app/`).

- `src/ranking.rs` — score rows, ranking best first with ties in arrival order
- `src/score_file.rs` — the `scores.dat` text format, read and written
- `src/leaderboard.rs` — the ten-slot high-score table
- `src/waves.rs` — the six enemy kinds and the make-up of each wave
- `src/combat.rs` — which bullets and enemies die, given measured contacts
- `src/game.rs` — screens (credits included), score, lives, waves, entering initials, and which sound each event makes
- `src/sound.rs` — sound-effect catalogue, note sequencer, noise generator
- `app/` — macroquad window and game loop, gilrs gamepads, rodio audio
- `tests/` — executable tests of the library
