# task_board

The logic of a small desktop deadline tracker, verified with Verus.

Items (a game, an event title, a deadline text and a status) are loaded
from a JSON file. The board works out how long each deadline is away,
sorts the items by that, shows an item that is still being done but whose
time has run out as expired, and lists, for the open tab (doing, done,
expired) and the chosen name filter, the rows to draw.

Layout:

- `src/` the verified library
  - `status.rs` item statuses and their numbers
  - `span.rs` instants, spans, and the time between two instants (chrono)
  - `deadline.rs` reading a deadline text (chrono's parsers)
  - `text.rs` decimal numbers, the remaining-time text, shortened cell text
  - `lexical.rs` the `str` order on texts
  - `order.rs` stable sort order by key
  - `options.rs` the choices of the name filter
  - `board.rs` the board state: loading, refreshing, updating an item
  - `rows.rs` the rows of a tab
  - `ui.rs` tabs, filter, and what a user event does to the board
- `tests/` tests of the library
- `app/` the bevy/egui program: file I/O, the clock, the local time zone,
  drawing
