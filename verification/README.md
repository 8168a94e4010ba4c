# Rusty Roguelike

A terminal roguelike: a town on the coast, a forest, and dungeon levels made by a chain
of map builders. The game's rules and its map generation are a library verified with
Verus. The program around it draws the terminal, reads keys and files, hands the library
what only `bracket-lib` computes there (path searches, distance maps, noise), and keeps the
entities of a level in a simple store of its own, asking the library for each decision.

## Layout

- `src/` — the verified library.
  - `run_state.rs` — the game loop's decisions: from a state and what happened this frame
    to the next state and the work to do.
  - `player.rs`, `monster_ai_system.rs`, `bystander_ai_system.rs`, `melee_combat_system.rs`,
    `damage_system.rs`, `hunger_system.rs`, `inventory_system.rs`, `trigger_system.rs`,
    `map_indexing_system.rs` — the turn's rules.
  - `gui.rs`, `camera.rs` — menu answers, targeting, and what the camera shows.
  - `map.rs`, `rect.rs`, `random_tables.rs`, `spawner.rs`, `raws/` — the level, rooms,
    spawn tables and dice strings.
  - `map_builders/` — every builder of the chain: rooms and corridors, caves, mazes,
    diffusion-limited aggregation, drunkard's walks, Voronoi cells, wave-function collapse,
    prefabricated levels, sections and vaults, the town and the road through the woods.
  - `rng.rs`, `geometry.rs` — the calls into `bracket-lib` the library makes, with the
    contracts the proofs rely on.
- `app/` — the program: terminal, keys, files, the entity store, and the loop that runs
  builder chains. Monster statistics are plain defaults there: there are no game-system
  formulas or name generator in this project to draw them from.
- `tests/` — tests of the library on concrete values.
