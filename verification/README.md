# replay_manager

A video browser for game replays: it lists the replays of a folder, sorts and
filters them, makes their thumbnails with ffmpeg, keeps favorites beside them and
uploads them to catbox or litterbox.

The library under `src/` holds the browser's logic, with its proofs:

- `path`, `path_laws`: Unix paths as text (name, stem, extension, parent, join) and
  what holds of them together.
- `videoutils`: a replay's name, size and dates, from the metadata read for it.
- `sorting`: sort keys and a stable sort of the listing, with its uniqueness.
- `search`: which replays a search lets through, and the grid they fill.
- `thumbnails`, `favorites`: where thumbnails and favorites go, ffmpeg's arguments
  and what its answer means.
- `listing`: compiling the listing pattern with the `glob` crate.
- `manager`: the browser's state and how each event changes it.

`app/` is the window (eframe/egui), the file system, ffmpeg, uploads and threads;
it hands each event to the library and carries out its answer.
