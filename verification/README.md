# tauri_shell

The verified core of a desktop shell that fronts a Python REST server
(OpenBB-style `/api/v1/...` routes), and the program around it.

- `src/` — the library, verified with Verus: per-process log ring buffers
  and their storage, the error model of connectors and IPC commands, the
  proxy configuration, the requests the generic and typed proxy commands
  make, the route and provider catalogs read from the server's documents,
  settings files and the credential vault, routine files, the cleanup
  cascade as a state machine, the tray menu, child windows, launch at
  login, data-directory resolution, and the cleaning of subprocess output.
  JSON documents are held as `json::Json`; reading and writing their text
  goes through `serde_json`, URLs through `url`, and the two pattern
  searches through `regex`.
- `tests/` — tests of the library.
- `app/` — the program: `main.rs` is the command-line companion (argument
  parsing, files, HTTP with reqwest, printing); `desktop/` holds the window,
  tray, IPC command table and plugin setup of the desktop program, which
  needs the `tauri` crate and its plugins.
