# omgato

Command line tools for Elgato gear on a Hyprland desktop: Key Lights over
their local HTTP API, a Cam Link 4K picture-in-picture overlay, and the bar
panel that gathers their state, keeps light names and display order, owns
the undo histories and writes the keyboard shortcuts.

The decisions these tools make are a library verified with Verus:

- `src/keylight`, `src/elgatoctl`: the light cache and its limits, target
  selection, the network scan's parsing, merging a scan into the cache,
  brightness and temperature levels, the listings and the status-bar summary.
- `src/camctl`, `src/camlink`: overlay placement on a monitor's usable area,
  panels' claims and dodging them, the compositor requests, the pid and claim
  files, `/proc` parsing, borrowing the capture device from a user service.
- `src/omgato`: the panel's undo histories, light snapshots and restoring
  them, the Stream Deck pages and keys, recording commands and the shortcut
  file and the line that sources it.
- `src/privdir.rs`: when a directory may hold a user's state.
- `src/text.rs`, `src/words.rs`, `src/numbers.rs`, `src/order.rs`,
  `src/search.rs`: text, number and ordering primitives with their laws.

`app/` is the program around the library: argument parsing, files, sockets,
HTTP, processes and JSON. `tests/` runs the library on concrete values.
