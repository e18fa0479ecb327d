# Quantum Dungeon

A small turn-based dungeon game. The rules are a Verus library; a thin
front end runs them in real time.

- `src/` — the verified rules.
  - `geom`, `posset`, `lights`, `grid`: positions, sets of positions, lit
    tiles and the map that grows tile by tile.
  - `arena`: values kept under ids that are never handed out twice.
  - `item`, `entity`, `player`, `effect`, `animation`: the game's data.
  - `random`: the one call into `rand`, picking an element of a slice.
  - `model`: the game itself — its state and invariant (`state`), vision,
    level generation and the shift of unseen things (`gen`, `shift`), the
    phases of a day (`phases`, `turn`, `flow`), the effect queues
    (`effects`, `resolve_effect`), what finished animations do
    (`animations`), what item scripts may ask for (`script`) and the
    player's actions (`action`).
- `tests/` — tests on concrete values.
- `app/` — the front end: configuration and item files, the script engine,
  timers and animations, input and drawing.
