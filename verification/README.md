# rustamp

A Winamp-style desktop music player whose logic is a Verus-verified library.

- `src/` — the verified library: the track model and playlist filter,
  path handling (Unix path components and their order), merging and sorting
  the tracks found in watched folders, the artist/album fallback from
  `<artist>--<album>` folder names, the playlist's play order (shuffle,
  repeat, the cursor), the watched-folder list, skin presets, the visualizer
  sample window, the texts of the "now playing" line, and the player
  window's decisions (what play/pause, prev/next, the automatic advance
  past unplayable files and a drag-and-drop do, and which rows the filter
  shows), and the `"#rrggbb"` text skin files write colors in.
  Random choices go through `rand`, behind trusted wrappers in
  `src/random.rs`; the Unicode case mappings go through std, behind trusted
  wrappers in `src/text.rs`; colors are read from and written to hex text
  by egui's `Color32`, behind trusted wrappers in `src/skin.rs`.
- `app/` — the program around it: the egui window, audio output with rodio,
  the FFT spectrum analyzer, reading tags with lofty, walking folders with
  walkdir, and the JSON config and skin files.
- `tests/` — tests of the library, run against the compiled crate.
