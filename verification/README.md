# tekfor_game

A turn-based grid puzzle game: players push through levels of walls, crates,
doors, pressure plates, saws and fireballs, and a level editor builds them.

- `src/` is the game's rules as a library verified with Verus: the grid of
  cells and the entity store (`grid`, `world_grid`, `ecs`), the components and
  templates of every kind of entity (`components`), movement, actions, turns
  and game events (`gameplay`, `events`, `systems`), level loading fix-ups
  (`serialize`), the editor and menu screens (`editor`, `menu`, `states`) and
  text helpers (`utils`, `resources`). Contracts state what each function
  does; `law_*` proof functions state what holds across calls.
- `app/` is the program around it: window and main loop (macroquad), user
  interface (egui), assets, sound, settings (RON), level files (MessagePack
  through hecs' column serialization) and the Lua scripting API (mlua).
- `tests/` runs the library on concrete levels.
