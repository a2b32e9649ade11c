# rustle

The library side of the Rustle music player, verified with Verus: lyrics
parsing and writing, the lyric-line logic of the lyrics view, the local
library scanner's decisions, key bindings and settings.

## Layout

- `src/` — the verified library.
  - `lyrics/` — the lyric model and the formats: LRC (with background and
    same-timestamp translation lines), YRC, QRC, LYS, ESLyric, LQE, TTML
    (over the XML tokens of `quick-xml`), ASS export, format detection,
    translation merging, timing optimization, the display form, and the
    service's cached and fetched lyrics.
  - `engine/` — the lyrics view's line logic: word splitting and chunking
    for emphasis, CJK word splitting, line conversion and preprocessing, the
    hot/buffered line tracker and the interlude gaps.
  - `import/` — library scanning decisions: audio file and header
    recognition, partial file hashes (XXH3), cover cache names, metadata
    from tags with legacy-encoding fallback (`encoding_rs`), file name
    parsing, scan progress, the scan's step function (what each step
    reports and counts), folder-watch events and their debouncer.
  - `media.rs` — where lyrics and cover files are looked for, and how found
    lyrics are combined.
  - `keybindings.rs`, `settings.rs`, `i18n.rs`, `tray.rs`, `mpris.rs` —
    shortcuts, settings values, languages and text lookup, the tray menu
    and media metadata.
  - `text.rs`, `paths.rs` — text and path operations with their specifications.
- `app/` — the parts that touch the system: the settings file (serde
  copies of the settings types), the cover cache on disk (`image`), tags
  (`lofty`), folder walks (`walkdir`), lyrics and covers next to audio
  files, the scan loop that feeds the scan's step function, and the
  debounce loop.
- `tests/` — tests of the library.

Calls into other crates (`quick-xml`, `regex`, `encoding_rs`,
`xxhash-rust`, std's `Path`, `str::to_lowercase`, ...) go through small
trusted wrappers. Where a few lines can say what such a function returns,
its contract says so; otherwise the result is given a name (an
uninterpreted specification function of the arguments), and the
library's contracts are stated exactly over that name.

Properties that span several calls (sorting and clamping of parsed lines,
the shape of parsed LRC, key labels being distinct, the whitespace
normalizer being idempotent, and others) are stated as public proof
functions next to the code they are about.
