# arq

The rules of a small terminal roguelike, verified with Verus: positions and areas, rooms and
doors, map generation, A* pathfinding, containers and inventories (opening, taking, dropping and
moving items), equipment, character creation, looking around, levels and the player's movement between
them, list selection, menus and settings.

Layout:

- `src/` — the verified library. Each module states its operations as `requires` / `ensures`
  contracts over mathematical models (`Seq`, `Map`, spec functions), and proves laws that span
  several operations as public proof functions (for example that going up a level and back down
  restores every level, or that a local map view position converts back to the same global one).
  Calls into `rand`, `rand_pcg`, `rand_seeder`, `uuid` and `std` formatting stand behind small
  trusted wrappers whose contracts say what those crates document.
- `tests/` — executable tests of the library.
- `app/` — a thin text front end: it generates a level from the map seed of the settings, draws
  it, moves the player and shows the inventory, calling the library for every decision.

Design choices:

- Maps are drawn from a `rand_pcg::Pcg64` generator that `rand_seeder` makes from the "Map RNG
  Seed" setting. That crate derives the generator from the seed alone; the library treats every
  draw as chance and states nothing about which rooms a seed gives (a test checks that one seed
  gives the same rooms twice).
- The A* search keeps its waiting positions in a `Vec` and takes out the first one of the lowest
  score, rather than in a binary heap; its tables are `HashMap`s keyed by a `u32` that packs a
  position's column and row.
- Room generation ends once the quota is met, no candidate position is left, or no room of
  any size fits at any candidate; after `u64::MAX` random rounds it places rooms at the first
  candidate and smallest size that fit, so that it always ends.
- The A* search returns a walkable path without repeated positions. Which path it returns, and
  whether it is a shortest one, depends on the order in which equal scores leave the queue;
  the library does not state it.
- Item weights are whole numbers (`i32`); fractional weights cannot be represented.
- A map holds the containers that lie in the world as a list of positions and containers.
