# Pelican

Sync music to a Garmin watch over USB/MTP, with the rules of the transfer
verified by Verus.

## Layout

- `src/` — the verified library (`pelican`):
  - `text`, `paths`: character-level helpers (trim, case, split, file names).
  - `garmin`: USB devices, keeping Garmin's, picking the one to talk to.
  - `transcode`: filename and tag sanitizing, the ffprobe tag allowlist,
    the ffmpeg command line of a normalization.
  - `transfer`: planning jobs from a listing of the inputs, and the per-job
    upload protocol as a step function (`job_step`) from stage and input to
    next stage and action.
  - `playlist`: writing and reading `.m3u8` playlists.
  - `tags`: whether a file carries the title and artist the watch lists
    (reading tags with the `id3` and `mp4ameta` crates).
  - `mtp`: remote paths, folder walks, the entries of a folder listing
    (unreadable objects included) and their display order.
  - `history`: the per-watch upload journal and local playlists.
  - `cli`, `gvfs`, `ui`, `theme`: what the command line and the window
    decide and show.
- `tests/` — tests of the library.
- `app/` — the program around it: argument parsing, USB and MTP I/O,
  ffmpeg, the JSON journal on disk, the egui window.
