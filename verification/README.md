# maki_selection

Copies text out of rendered chat messages. A message is drawn into a grid of terminal cells; when
part of it is selected, the markdown behind the selected cells goes to the clipboard.

- `src/` is the library, verified with Verus. `screen` and `scrape` read drawn rows, `matching`,
  `syntax` and `pattern` find them in the markdown, `source_map` maps every row, `selection`, `gap`
  and `extract` put the selected rows together, `document` does so for a whole conversation, and
  `laws` states what holds of all of it.
- `app/` draws with `ratatui` and calls the library.
- `tests/` runs the library on examples.
