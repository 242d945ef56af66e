# perlica

The game rules of the Perlica server, written in Verus: configuration tables,
the player's characters, items, mail, wallet, missions and guides, level
scripts, and entity interest management, each function with its contract
proved.

## Layout

- `src/config/` — configuration tables: items and depots, weapons and their
  level curves, factory constants and regions, rewards, and the mission
  catalog built from the text tables' keys.
- `src/logic/` — player and scene state: character progression and skills, the
  character bag and teams, item depots, mail, wallet, missions and guides, level-script
  triggers and runtime state, entity management, interest (replication zones,
  budgets, occlusion cache), the streaming policy (spawn budgets, concurrent
  caps, respawn cooldown, leave rules), the integer spatial grid, the scene
  manager's state, restoring a saved character bag and repairing it after a
  load, shared traits, and string helpers.
- `tests/` — scenario tests run against the compiled library.
- `app/` — what surrounds the library: reading the tables and level data from
  disk, serialised forms of the library's state, the floating-point world
  state (positions, shapes, speed estimates, the spatial grid's cells), and a
  session driver for the interest tick, revival and team switches.

Floating-point values never enter `src/`: where library state carries them
(battle values, property lists) it holds their bit patterns, and where a type
holds coordinates (`Pos<T>`, `MovementManager<T>`, `SceneEntity<T>`) the
coordinate type is a parameter that the library only stores.
