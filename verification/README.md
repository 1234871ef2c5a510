# soul_memory_overlay

The logic of a Dark Souls II soul memory overlay for OBS, verified with Verus:
a helper reads the game's memory and sends one JSON line per reading; an OBS
source connects to it and draws the value.

## Layout

- `src/` — the verified library.
  - `pointer_chain.rs`: following a pointer chain to a 32-bit value, as a walk
    of steps whose outcome is stated for every answer the memory gives.
  - `aob.rs`: byte-pattern parsing and search, and decoding the game manager's
    address from the matches.
  - `module_image.rs`: assembling a module's image from its readable regions.
  - `scan.rs`, `sweep.rs`: which chains and bases to try, reading every chain
    from every base, and settling on the best value or the reason there is none.
  - `reader.rs`, `proto.rs`: the messages the helper sends and its log lines.
  - `overlay_state.rs`: what the OBS source shows for each message and event.
  - `plugin.rs`, `bundle.rs`: the source's settings, the helper's supervision
    and back-off, the release check, and where the helper and its
    configuration are looked up.
  - `text.rs`: the string building the rest relies on.
- `tests/` — tests run against the compiled library.
- `app/` — the program around the library: the command line, configuration
  files, the named pipe, the Windows process-memory calls and the OBS plugin.
