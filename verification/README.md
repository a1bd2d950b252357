# infinitystreamer

A never-ending HLS stream: one pre-encoded video fragment and one audio
fragment are served over and over, each copy patched with a media sequence
number and decode time, and listed in live playlists whose sequence follows
the time since the Unix epoch. WebVTT subtitles are generated to match.

## Layout

- `src/` — the library, verified with Verus:
  - `mp4utils.rs`: finding boxes in MP4 blobs, reading the timescale and the
    fragment duration, patching a fragment's sequence number and decode time;
    the laws on found boxes, read-back and re-patching.
  - `bytes.rs`: big-endian reads and writes over byte sequences.
  - `text.rs`: decimal text, zero padding, and filling `{}` templates.
  - `vtt.rs`: subtitle cues and fragments.
  - `models/`: the tracks (`FragmentParams`), the asset, the playlist query,
    and the live and past-stretch playlists.
  - `handlers/`: what each HTTP route computes.
  - `datetime.rs`, `utility.rs`, `api_error.rs`: the calls into chrono, the
    system clock and actix-web's status codes, behind stated contracts.
- `app/` — the HTTP server (actix-web): routes, JSON errors, loading the
  media and templates from `STREAM_ASSETS` (default `assets/`), and the two
  floating-point values (fragment length in seconds, framerate).
- `tests/` — tests of the library.

Where a request or the clock leads to an overflow, a division by zero or a
date that cannot be written, the library answers `None` and the server stops
that request.
