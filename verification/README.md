# pipemic

PipeMic mixes microphones and application audio into a virtual cable on
Windows. This crate holds its routing logic as a library verified with Verus,
and the desktop side around it.

- `src/` — the verified library:
  - `config` — configuration defaults, sanitising of microphone and
    application sources and shortcuts, migration of saved legacy fields,
    applying per-source gain and mute updates, and where the configuration
    file lives (`PipeMic/config.json` under `APPDATA` or `XDG_CONFIG_HOME`,
    else `.config/PipeMic/config.json` under `HOME` or the temporary
    directory).
  - `audio::sessions` — which audio sessions and windows are offered as
    application sources, merged by executable and ordered by rank and label.
  - `audio::devices` — endpoint records, ordered cables first, then the
    default endpoint, then by name.
  - `audio::engine` — the route engine's start/stop/update decisions, output
    device resolution, worker status messages and the pressure trackers.
  - `audio::mixer` — mixer controls and the bounded frame spill buffer.
  - `audio::formats`, `audio::capture`, `audio::render` — stream format
    selection, packet splitting, capture diagnostics and failure messages.
  - `commands` — release page, start-up command line and window decisions.
  - `order`, `text`, `duplicate` — a verified stable sort, string helpers and
    exact copies.
- `tests/` — tests run against the compiled library.
- `app/` — WASAPI, the routing worker thread, floating-point mixing and
  metering, the configuration file and the tray app. Gains and peaks cross
  into the library as IEEE-754 bit patterns (`Level`).
