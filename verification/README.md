# tui-music

A terminal music player whose core is written in Verus and proved against
its contracts.

## Layout

- `src/` — the verified library (`tui_music`):
  - `app.rs` — the player's state machine (`App`): playlists, search filter,
    selection, repeat and shuffle modes, volume and play state. Every
    operation is specified as a function on the state's view (`AppView`)
    and returns an `Effect` for the audio side to carry out.
  - `laws.rs` — properties that span operations (round trips, the display
    list being exactly the search result, prev undoing next, track-end
    behaviour).
  - `library.rs` — tracks and playlists, audio file recognition, playlist
    naming and the assembly of a scanned music folder into playlists.
  - `order.rs` — a stable insertion sort by character keys.
  - `player.rs` — repeat modes and the ring buffer of recent samples.
  - `text.rs` — substring search, suffix stripping, Unicode white-space
    trimming, code point ordering, decimal digits.
  - `ui.rs` — display helpers (`m:ss` clock text, spectrum glyphs).
- `tests/` — tests of the library.
- `app/` — the program around it: terminal UI (ratatui, crossterm),
  audio output (rodio), FFT spectrum (rustfft), folder walking (walkdir)
  and tag reading (lofty).
