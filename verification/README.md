# gunslinger

The game model of a small multiplayer arena shooter, verified with Verus. Players
control guns on a torus-shaped arena; guns latch onto wandering humans, shoot, bounce
off blocks and each other, and score by killing humans and other players' guns. A
round lasts a fixed time or until no human is left, then the game restarts.

All quantities are integers: lengths in thousandths of a world unit, times in
milliseconds, angles in quarter degrees (a full turn is `TURN`).

## Layout

- `src/` — the verified library.
  - `geometry`, `rotation`, `collider`, `id`, `entity`: points on the torus, vectors,
    angles and their table of sines, box collisions, identifiers, keyed collections.
  - `config`, `model`: the configuration, the model and its invariant (`Model::wf`).
  - `gen`: generating the arena, restarting, respawning.
  - `guns`: aiming and shooting.
  - `logic` and its submodules: one step of the game (`Logic::process`,
    `Model::update`, `Model::tick`), phase by phase.
  - `player`: joining, leaving and the players' messages; `local`: a game played on
    one machine, which handles the queued messages and then steps.
  - `laws`: properties that relate several operations.
  - `interpolation`, `shake`, `spectate`: the display helpers of the client (spline
    smoothing of positions, camera shake, what the camera follows and whom a
    spectator watches); `smoothing`: stepping the displayed interpolation of every
    entity; `particles`: particles and floating texts that drift and fade;
    `ranking`: a player's place at the end of a round.
  - `random`: the one place where chance enters, through `rand`.
- `tests/` — tests of the library on concrete values.
- `app/` — the headless server: it loads the configuration file, ticks the model and
  exchanges JSON lines with the players over TCP.
