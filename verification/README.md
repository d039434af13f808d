# local_file_explorer

A local media-library explorer: it indexes video and audio files under
chosen folders into a SQLite catalog, reads their durations from container
headers, filters the catalog with regular-expression clauses, writes
MPC-HC/MPC-BE playlists, and serves its front end to a browser on loopback.

- `src/` is the verified library (Verus): query filtering and stable
  sorting, folder snapshots and listing hashes, the scan's decisions and
  progress reports, media header parsing (Matroska, MP3, MP4, WAV, FLAC),
  settings normalization and migration rules, path and session rules,
  playlist text, and the host's routing.
- `app/` runs it: the HTTP host (tiny_http), the SQLite catalog (rusqlite),
  the folder walk (walkdir), file reads for duration probing, settings
  files (serde_json), and per-session scanners.
- `tests/` exercises the library on concrete values.
