# GifVault

A local gif library manager: import gifs (and png, jpeg, webp images),
tag them, find them again by tag, and copy the file itself to the
clipboard. This crate is its library, written in Verus: every function in
`src/` is verified by Verus against its contract. Where a result depends
on what the database file holds, the contract can only state what the
library decides itself: the SQL and the values bound to it, which row is
taken from an answer, and what happens to the in-memory library.

## Layout

- `src/cache.rs` — the decode cache file format, with a proof that reading
  back what was written gives the frames back.
- `src/thumbnail.rs` — decoding gif and still-image bytes (through the
  `image` crate) into downscaled RGBA frames, and peeking dimensions.
- `src/tags.rs`, `src/text.rs`, `src/order.rs` — tag lists, text helpers
  (trimming, splitting, joining, case folding) and stable index sorting.
- `src/editor.rs`, `src/search.rs` — the tag editor (pills, draft,
  suggestion) and the library's search box.
- `src/library.rs` — the in-memory library: filtering, ordering, trash and
  restore, playback, stats.
- `src/db/` — the SQLite schema and queries (through `rusqlite`).
- `src/import.rs`, `src/labels.rs`, `src/overlays.rs`, `src/model.rs` —
  naming imported files, texts shown in the views, which dialog is on top,
  and the shared enums and row type.
- `app/` — the iced desktop app around the library: windows, dialogs,
  files, downloads, backups and the clipboard.
- `tests/` — tests of the library on concrete values.
