# res_bot

The decision logic of a desktop assistant that watches a game window for the
resurrection dialog and answers it: it finds the dialog's green and red buttons,
reads the offered percentage and the player's nickname by OCR, decides whether to
accept, looks a second time, and clicks like a person would.

`src/` is the verified library; `app/` is the Windows program around it.

- `image`, `components`, `detection`: frames, connected colour regions, the dialog
  and the status panels.
- `decision`, `report`: the percentage, the numbered nickname, the action, and the
  texts of the diagnostic log.
- `cycle`: one check as a state machine: the program carries out each command
  (find the window, capture, OCR, pause, click) and hands back what happened.
- `input`: click targets, movement timing, the cursor path check, absolute input
  coordinates.
- `config`, `settings`, `layout`, `diagnostics`, `tray`, `window`, `wide`, `icon`:
  settings and their form, window layouts, the diagnostic log, tray menu commands,
  window title matching, UTF-16 text and the tray icon file.
- `text`, `random`: calls into `std` character functions and `rand`.
