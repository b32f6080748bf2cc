# helto-launcher

A minimal GTK4 application launcher for Hyprland.

- `src/` is the verified library: desktop-entry and `Exec` line parsing,
  search and ranking, favorites, launch counts, power actions, themes, and
  what each key press or button does. Every function carries a contract that
  Verus proves.
- `app/` is the program around it: command-line arguments, reading and writing
  files, TOML, spawning processes and the GTK window.
- `tests/` runs the library on concrete inputs.
