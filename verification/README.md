# rustris

The game logic of a falling-block puzzle game, verified with Verus.

- `src/rustomino.rs`: the seven pieces, their spawn layouts, rotation tables
  and wall kick tests, and the seven-piece bag (shuffled with `rand`).
- `src/playfield.rs`: the 10 x 22 playfield, the active and ghost pieces,
  collisions, moves, turns with wall kicks, hard drops, locking and line clears.
- `src/game.rs`: the game itself: menus, gravity and lockdown, holding a
  piece, scoring, levels and game over. `RustrisState::update`, `key_down`,
  `focus` and `control_handler` are the entry points; times are in
  microseconds.
- `src/menus.rs`, `src/controls.rs`, `src/util.rs`: the menus, the default key
  bindings and a variant comparison. `GameControls` keeps its bindings in
  vectors of pairs, and `GameControls::wf` states that no control and no key
  occurs twice: vstd's `HashMap` specifications hold only for key types whose
  hashing and equality Verus knows to agree, which it does not know of the
  derived `Hash` of the library's own `Control` and `Key`.
- `tests/`: tests of the library on concrete games.
- `app/`: the desktop program (ggez): window, drawing, sound, keyboard and the
  floating-point gravity delay.

Every public function states its result over an abstract model (`GameView`,
`PlayfieldView`) and the laws of the game (the ghost shows where a hard drop
lands, play never lowers the score, a turn is undone by the opposite turn, the
bag deals every piece once per round, a turn keeps every locked block, ...)
are proof functions in `src/`. The game's invariant includes that the slots
agree with the pieces (`PlayfieldView::consistent`) while the game is not
over.

The bag's generator is seeded by the caller (`RustrisState::new(seed)`); the
program seeds it from the system's entropy.
