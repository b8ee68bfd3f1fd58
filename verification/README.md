# dock_app

A dock for the Windows desktop. The decisions it takes are a verified library;
the program around it makes the system calls.

- `src/` is the library, proved with Verus: how targets are recognised and
  windows grouped into applications (`apps`), the pinned list and its laws
  (`store`, `store_laws`), the configuration of a former installation
  (`migration`, `json`), menus (`menu`), the panels and the prompt
  (`panel_window`, `prompt_window`), hiding and the guard against the desktop
  (`autohide`), window messages, styles and placement (`win_layer`, `geometry`,
  `startup`), icons (`icons`, `glass`), drops and picks (`drop`, `picker`), the
  tray and the start with the session (`tray`, `autostart`), requests of the
  pages (`commands`), the log and crash reports (`logging`, `logging_laws`), and
  what the self-tests plan and judge (`selftest`, `selftest_laws`,
  `selftest_replies`). `text` and `model` hold what they share.
- `tests/` runs the library on concrete values.
- `app/` is the program: windows, pages, files and the registry. It asks the
  library what to do and does it.

What is believed without proof is stated where it is declared: two functions of
the standard library in `text`, and the calls of `serde_json` in `json`.
