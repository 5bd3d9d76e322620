# pop_launcher_toggl

A pop-launcher plugin that drives Toggl Track timers from the COSMIC /
Pop!_OS launcher: see the running timer, stop it, restart recent entries, or
start new ones with a project.

## Layout

- `src/` — the verified library (Verus). Each function states its behaviour
  in `requires` / `ensures`; the `law_*` proof functions state properties that
  span functions.
  - `text`: character helpers, trimming, decimal formatting and parsing.
  - `fuzzy`: diacritic-insensitive fuzzy scoring (normalization by
    `unicode-normalization` and `unicode-general-category`).
  - `json`: JSON values and compact JSON string writing.
  - `api`: time entries, decoding API replies, building API requests
    (Base64 by `base64`).
  - `dateutil`: the start stamp of a timer and elapsed-time text (clock and
    RFC 3339 parsing by `time`).
  - `ipc`: the launcher's wire format, both ways.
  - `cache`: refresh strategy and folding API results into the cache.
  - `config`: the lenient `config.toml` reader and writer, file paths.
  - `sort`: stable sorts by score and by name.
  - `plugin`: the request handlers, which return the effects to perform.
  - `setup`: the first-run dialog sequence, one step per event.
- `app/` — the program around it: stdin/stdout, HTTP with `ureq`, threads,
  the process-global cache, files, `zenity` dialogs and `xdg-open`.
- `tests/` — tests of the library.
