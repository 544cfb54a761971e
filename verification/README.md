# latin_tui

Two small programs that share a crate:

- a Latin declension lookup: noun, adjective and verb tables loaded from CSV
  files, with the rules for blank cells (a blank locative becomes "in" and the
  ablative; a form still blank becomes the word and two apostrophes);
- the turn logic of a terminal game: entities with positions, health and
  equipment on a tile map, deaths and the items they leave, the moves of the
  computer players, the message log and the inventory and aiming menus.

The library under `src/` is verified with Verus:

- `table`, `latin`: the word tables and the form lookups;
- `world`: entity, item and action types, the component tables and the tile map;
- `app`: the game state, the item lists, visibility, targets, the selection and
  its upkeep;
- `deaths`, `ai`, `journal`, `hud`: deaths, computer moves, the seen tiles,
  the reports the player hears of and the message log, the side panel text;
- `scatter`: setting up a new game and the ammunition laid out on it;
- `outside`: the calls into bracket-pathfinding (line drawing) and rand.

Every draw of the random generator goes through `App::draw`, which logs the
odds asked for and the outcome in a ghost field, so that the contracts of the
computer moves and of the set-up say which odds each draw had and how the
outcomes decide the result.

`app/` holds the program: reading the CSV files, the field of view (which
needs bracket-lib's map traits), the keys and the terminal drawing. Run it
with the argument `igra` to play; without it, it prints Latin forms.
