# dsh_desktop

The decision logic of the DeepSeek Harness macOS desktop shell, verified with
Verus. The shell spawns the bundled `dsh web` server, waits for its readiness
line, navigates its window to the harness, runs the harness' `dsh plugin`
command for the plugin manager, and rewrites the web profile's patch file to
switch the built-in Blue Fantasy skin.

- `src/` — the verified library:
  - `text` — character-level models of whitespace, trimming, searching and line splitting;
  - `theme` — the skin switch (`theme_patch`) and its laws: a Blue Fantasy row is
    a `- id:` line whose id is `ui-skin-blue-fantasy` (bare or quoted, once a trailing
    `# comment` is dropped); its body is
    the lines after it that begin with a space, up to the next row start indented
    no deeper; switching on removes those rows with their bodies and keeps every
    other row, body and comment as it is;
  - `readiness` — the readiness line and the readiness channel;
  - `webview` — the session-handshake script, the navigation fallback, the handshake
    schedule (1.2 s, 2.6 s and 4.2 s after navigation), the menu;
  - `paths` — the app's file layout and the search path;
  - `commands` — the server and plugin command lines, the plugin report, the Node binary's mode;
  - `target` — the harness URL and its session token (through the `url` crate);
  - `manifest` — the plugin status read from the profile's `package.json`: `serde_json`
    parses it, the value is copied into the library's `Json`, and the status is read from that.
- `app/` — the Tauri shell around the library: windows, menus, processes, files.
- `tests/` — tests of the library on concrete values.
