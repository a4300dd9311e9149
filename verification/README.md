# cave_game

A small terminal/window game used in a talk about composing UI components:
a cave level generated by a cellular automaton, a player walking it, a main
menu, and the screens that combine them.

`src/` is the library, verified with Verus:

- `geometry` – coordinates and the cardinal and eight-way directions.
- `grid`, `random` – contracts for the `grid_2d` grids and the `rand` /
  `rand_isaac` generator that the library calls.
- `cave` – the smoothing and filling automaton, carving, and the level shape
  made from a noise grid.
- `full_shape` – proofs about the full noise grid, whose level shape is the
  whole interior; the generator falls back on it after `u64::MAX` shapes
  that are too small.
- `component` – flood fill and the largest connected region of a grid, with
  proofs that the region found is the unique largest one.
- `game` – the level, the player, walking and level generation.
- `menu`, `main_menu` – a selection menu and the game's main menu.
- `events`, `game_component`, `app*`, `cf` – the keys the screens react to and
  the screens' decisions.

`app/` is the program: argument parsing, the chargrid runtimes, drawing, and
the component combinators, which wrap arbitrary implementations of chargrid's
`Component` trait. `tests/` holds the tests.
