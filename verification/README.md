# reelcast

A small media server that indexes a video library and hands files to VLC as
HTTP streams and playlists.

- `src/` is the verified library: playlist rendering (XSPF, M3U), XML and
  URL escaping, file-name parsing (title, year, extension, stable id), the
  URLs and JSON items of the HTTP API, the media cache, the player-session
  registry, TLS configuration decisions and error reporting. Each public
  function carries a contract proved by Verus; the laws that span several
  functions are public proof functions (`law_*`).
- `app/` is the server around it: command line, SQLite storage, the library
  walk and `ffprobe`, the HTTP routes, locks, clocks and channels.
- `tests/` runs the library on concrete values.
