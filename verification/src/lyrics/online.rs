//! Lyrics of the music service: the names they are cached under, reading
//! them back from the cache, and reading what the service returned.

use vstd::prelude::*;

use crate::lyrics::detect::{detect_format, spec_detect_format};
use crate::lyrics::lrc::{parse_lrc, parse_lrc_sidecar, spec_parse_lrc};
use crate::lyrics::merge::{merge_translation, merge_walk};
use crate::lyrics::types::{lines_view, LyricLineOwned, LyricsFormat, SpecLine};
use crate::lyrics::yrc::{parse_yrc, spec_parse_yrc};
use crate::lyrics::{parse_lyrics_with_format, parsable, parsed_lyrics};
use crate::text::{dec, push_dec, push_str};

verus! {

/// The name of a song's cache file: the song's id and a suffix such as `.yrc`.
pub fn cache_file_name(ncm_id: u64, suffix: &str) -> (r: String)
    ensures
        r@ == dec(ncm_id as nat) + suffix@,
{
    let mut s = String::new();
    push_dec(&mut s, ncm_id);
    push_str(&mut s, suffix);
    s
}

/// The lines with the translation (LRC text) merged in, where there is one.
pub open spec fn with_translation(lines: Seq<SpecLine>, tlrc: Option<Seq<char>>) -> Seq<SpecLine> {
    match tlrc {
        Some(t) => merge_walk(lines, spec_parse_lrc(t), 0, 0, true),
        None => lines,
    }
}

pub open spec fn opt_text(o: Option<String>) -> Option<Seq<char>> {
    match o {
        Some(s) => Some(s@),
        None => None,
    }
}

/// Cached lyrics: the word-timed (YRC) ones when they give lines, else the
/// LRC ones when they give lines; each with the cached translation merged in.
pub open spec fn cached_lyrics(yrc: Option<Seq<char>>, lrc: Option<Seq<char>>, tlrc: Option<Seq<char>>) -> Option<
    Seq<SpecLine>,
> {
    if yrc is Some && spec_parse_yrc(yrc->0).len() > 0 {
        Some(with_translation(spec_parse_yrc(yrc->0), tlrc))
    } else if lrc is Some && spec_parse_lrc(lrc->0).len() > 0 {
        Some(with_translation(spec_parse_lrc(lrc->0), tlrc))
    } else {
        None
    }
}

fn merge_cached_translation(lines: &mut Vec<LyricLineOwned>, tlrc: &Option<String>)
    ensures
        lines_view(final(lines)@) == with_translation(lines_view(old(lines)@), opt_text(*tlrc)),
{
    if let Some(t) = tlrc {
        let trans = parse_lrc_sidecar(t.as_str());
        merge_translation(lines, &trans);
    }
}

/// Lyrics read back from the cache files' contents (`None` for a missing
/// file); see [`cached_lyrics`].
pub fn lyrics_from_cache(yrc: Option<String>, lrc: Option<String>, tlrc: Option<String>) -> (r: Option<
    Vec<LyricLineOwned>,
>)
    ensures
        match (r, cached_lyrics(opt_text(yrc), opt_text(lrc), opt_text(tlrc))) {
            (Some(v), Some(l)) => lines_view(v@) == l,
            (None, None) => true,
            _ => false,
        },
{
    if let Some(y) = &yrc {
        let mut lines = parse_yrc(y.as_str());
        if lines.len() > 0 {
            merge_cached_translation(&mut lines, &tlrc);
            return Some(lines);
        }
    }
    if let Some(l) = &lrc {
        let mut lines = parse_lrc(l.as_str());
        if lines.len() > 0 {
            merge_cached_translation(&mut lines, &tlrc);
            return Some(lines);
        }
    }
    None
}

/// Lyrics as the service returned them: parsed in the format found in the
/// text, with the translation merged in; and whether they are word-timed
/// (YRC), which decides how they are cached.
pub fn lyrics_from_fetched(main_lyric: &str, trans_lyric: Option<String>) -> (r: (Vec<LyricLineOwned>, bool))
    requires
        parsable(main_lyric@),
    ensures
        r.1 == (spec_detect_format(main_lyric@) == LyricsFormat::Yrc),
        lines_view(r.0@) == with_translation(parsed_lyrics(main_lyric@), opt_text(trans_lyric)),
{
    let format = detect_format(main_lyric);
    let is_yrc = format == LyricsFormat::Yrc;
    let mut lines = parse_lyrics_with_format(main_lyric, format);
    let ghost parsed = lines_view(lines@);
    merge_cached_translation(&mut lines, &trans_lyric);
    (lines, is_yrc)
}

} // verus!
