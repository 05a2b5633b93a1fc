# nether_earth

Game rules of a real-time strategy played on a square grid, verified with
Verus: terrain kinds and movement costs, line of sight, A* routes, the
economy, the AI commander's decisions, the map editor with its undo/redo
history, the map file format, robot order queues, unit selection and
interface texts.

- `src/` is the verified library; every function carries its contract.
- `tests/` exercises the library on concrete values.
- `app/` holds what the library leaves out: reading and writing files,
  parsing configuration, and the floating-point parts of the game
  (health, the game clock, world positions, scoring).
