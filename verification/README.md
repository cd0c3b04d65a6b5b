# EZ Wishlist Overlay

A wishlist for hideout upgrades and weapon research that is shown in the
headset: look up, and a grid of the items still to be found appears; point at
a cell and pull the trigger to count one more. Panels of the game can be
captured and read, and the game data is gathered from the community catalog.

`src/` is the library. Every function in it states what it returns or changes,
and Verus proves it:

- `data`, `ids`, `hash`: the game data, sets and maps keyed by text, recipe
  fingerprints.
- `state`: the profile: tracking, completing and paying for upgrades and
  research, containers, corrections to recipes, what is needed over which
  horizon, and what is kept across runs. `state/laws.rs`,
  `state/stock_laws.rs` and `state/horizon_laws.rs` state what holds across
  operations.
- `vr`: when the overlays show, fade and hide; the grid and its hits; clicks;
  the capture modes; the layout of the cards and of the aiming guide.
- `ocr_lab`: from recognized words and pixels to the content of a panel.
- `scraper`: from the catalog's files to game data.
- `updater`: versions, and which release is offered.
- `imaging`, `text`, `sorting`, `canvas`, `wishlist`: shared parts. Calls into
  other crates stand behind small functions whose contracts say what is relied
  on (`imaging`, `text`, `scraper/json`, `scraper/parse_ts`, `scraper/tasks`,
  `ocr_lab/words`).

`app/` is the program round it: files, network, threads, the headset, painting
with floats. `tests/` runs the library.

Times are in nanoseconds. Angles are whole numbers: of degrees where a function
has its own thresholds, otherwise of the unit that its thresholds are in, for
which the program takes thousandths of a degree. Weights are carried as the
bits of the float that was given: the library computes with no floats.
