# media_center

The core of a media-centre application for a small computer attached to a TV: it
scans the mounted storage volumes for video files, keeps a folder tree with file
counts, sizes and durations, lets the user browse it with a remote-like keyboard,
and remembers where each video was left.

`src/` is the verified library (Verus):

- `structs`, `library`, `ordering`, `scan`: the folder tree, its totals, the removal of
  empty folders, case-insensitive sorting, and the tree built from a directory walk
  (every directory a folder, empty ones included);
- `probe`, `stream_probe`: which paths are videos, and the reading of ffprobe reports;
- `tree_view`, `browsing`, `browsing_laws`: the rows of the browser and its navigation;
- `player`, `session`: playback state, player commands, and the step functions behind
  the interface (resume saving, hold-to-clear, debounced rescans, navigation keys);
- `db`, `paths`: per-file state rows, settings values, alignment of stored paths with
  the library;
- `volumes`: mount-table parsing and volume detection;
- `theme`: colour palettes;
- `text`: character-level string helpers.

`app/` is the program around it: directory walks, ffprobe processes and threads,
the SQLite database, the filesystem watcher, and the floating-point formatting of
sizes, bit rates and durations. It is a headless service: it scans, probes, keeps the
database aligned and rescans on change, and prints the library. It has no window and
no video player, so the parts of the library that serve an interactive front end (the
`player` state and commands, the `session` step functions for keys, hold-to-clear and
playback) have no caller in it; `tests/` exercises them, as it does the rest of the
library.
