# recorder_core

The verified core of a live-stream recorder for Stripchat: it decides which URLs to
ask for, reads the site's camera status, picks the best variant of a master playlist,
races CDN domains, keeps the registry of running recordings and merges, drives the
recording loop's retry and refresh counters, names segment and video files, builds
the recordings list, and plans the start-up housekeeping of the output directory.
Every public function carries a contract proved by Verus.

## Layout

- `src/` — the library, verified by Verus.
  - `text.rs`: character-sequence helpers (decimal writing and parsing, trimming,
    searching, replacing) with their specifications.
  - `paths.rs`, `timestamp.rs`: the calls into `std::path` and `chrono`, behind
    trusted wrappers, and the session-name timestamps built on them.
  - `playlist.rs`: master playlists (best variant, Mouflon parameters).
  - `stripchat.rs`: the site's URLs, status labels, thumbnails, CDN racing
    decisions and error messages.
  - `segments.rs`, `recording_loop.rs`: one download round and the loop's state
    machine.
  - `recorder.rs`, `strset.rs`: the registry of sessions and merges.
  - `recordings.rs`, `sorting.rs`, `startup.rs`: the recordings list, deletion,
    stable sorting and start-up housekeeping.
- `tests/` — tests of the library on concrete values.
- `app/` — the unverified run-time around the library: HTTP requests (reqwest),
  files, ffmpeg, tokio tasks, and the interfaces of the host application.
