# sabi

The game logic of a small roguelike, written in Verus: every function in
`src/` carries a contract that Verus proves, except a few trusted wrappers
around outside calls (`char`'s Unicode properties, `rand` and `uuid`), whose
contracts are taken from those libraries' documentation and source and are
not proved.

- `src/data/` — dungeon layout from a Prüfer code (`dungeon`), the turn
  order of entities (`turn_order`), the spatial index of where entities are
  (`spatial`), the message log, names and walkability.
- `src/ai/` — monster goals, targets, triggers and the per-monster memory
  that each turn of thinking updates.
- `src/chunk.rs`, `src/graphics/`, `src/cell.rs`, `src/gen.rs` — chunks of
  the map, cell kinds and features, and walks along a rectangle's border.
- `src/keys.rs`, `src/engine/`, `src/command.rs` — key presses from the
  display backends, what they ask for, and clipped printing for text views.
- `src/color.rs`, `src/ecs/`, `src/logic/` — palette colors, entity
  components, global state (dungeons, towns) and quests.

`app/` is the program around the library: files, logging, field of view
and terrain noise (which work in floating point), and item weights.
