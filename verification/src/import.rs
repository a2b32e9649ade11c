//! Local music library import: which files are music, decoding of legacy
//! tag text, file-name parsing, scan progress, folder-watch events and the
//! cover cache's file names.

pub mod cover;
pub mod encoding;
pub mod metadata;
pub mod progress;
pub mod scan_run;
pub mod scanner;
pub mod watcher;

use vstd::prelude::*;

use crate::paths::{path_ext, path_extension};
use crate::text::{lowercase, string_eq_str, to_lowercase};

verus! {

/// Extensions of the supported audio formats.
pub open spec fn audio_exts() -> Seq<Seq<char>> {
    seq!["mp3"@, "flac"@, "wav"@, "m4a"@, "ogg"@, "opus"@, "aac"@, "wma"@, "aiff"@]
}

/// Extensions of the supported audio formats.
pub fn audio_extensions() -> (r: Vec<&'static str>)
    ensures
        r@.map_values(|e: &str| e@) == audio_exts(),
{
    let r = vec!["mp3", "flac", "wav", "m4a", "ogg", "opus", "aac", "wma", "aiff"];
    assert(r@.map_values(|e: &str| e@) =~= audio_exts());
    r
}

/// Whether a path names an audio file: its extension, lowercased, is a supported one.
pub open spec fn is_audio_path(path: Seq<char>) -> bool {
    match path_ext(path) {
        Some(e) => audio_exts().contains(lowercase(e)),
        None => false,
    }
}

/// Whether a path's extension is that of a supported audio format (in any case).
pub fn is_audio_file(path: &str) -> (r: bool)
    ensures
        r == is_audio_path(path@),
{
    match path_extension(path) {
        Some(ext) => {
            let lower = to_lowercase(ext.as_str());
            let exts = audio_extensions();
            let ghost ev = exts@.map_values(|e: &str| e@);
            let mut i: usize = 0;
            while i < exts.len()
                invariant
                    i <= exts.len(),
                    ev == exts@.map_values(|e: &str| e@),
                    ev == audio_exts(),
                    path_ext(path@) == Some(ext@),
                    lower@ == lowercase(ext@),
                    forall|j: int| 0 <= j < i ==> ev[j] != lower@,
                decreases exts.len() - i,
            {
                assert(ev[i as int] == exts@[i as int]@);
                if string_eq_str(&lower, exts[i]) {
                    assert(audio_exts()[i as int] == lower@);
                    return true;
                }
                i += 1;
            }
            false
        },
        None => false,
    }
}

} // verus!
