# gamefloat

The logic of GameFloat, a tray program that keeps frameless, always-on-top
overlay windows showing guide pages above a game, verified with Verus.

- `src/` — the verified library: the settings model and its id
  normalisation (`model`, `ids`), window and web view labels (`labels`),
  overlay decisions and content-page scripts (`overlay`), hotkey planning
  (`shortcuts`), tray menu entries and events (`tray`), configuration
  import/export answers (`config`), and character helpers (`text`).
- `app/` — the Tauri program around it: windows, web views, clipboard,
  global shortcuts, the configuration file and the serde forms of the
  settings types.
- `tests/` — tests of the library on concrete values.
