//! Lyrics parsing: data types, the supported text formats, and the choice of
//! a parser for a text.

pub mod timed;
pub mod types;
pub mod yrc;
pub mod qrc;
pub mod lys;
pub mod lrc;
pub mod eslrc;
pub mod merge;
pub mod lqe;
pub mod detect;
pub mod optimize;
pub mod ass;
pub mod ttml;
pub mod display;
pub mod online;

use vstd::prelude::*;

use crate::lyrics::detect::{detect_format, spec_detect_format};
use crate::lyrics::eslrc::{eslrc_parsable, eslrc_total, parse_eslrc, spec_parse_eslrc};
use crate::lyrics::lqe::{parse_lqe, spec_parse_lqe};
use crate::lyrics::lrc::{parse_lrc, spec_parse_lrc};
use crate::lyrics::lys::{parse_lys, spec_parse_lys};
use crate::lyrics::qrc::{parse_qrc, spec_parse_qrc};
use crate::lyrics::ttml::{parse_ttml, ttml_from_events, ttml_tokens, SpecXmlEvent};
use crate::lyrics::types::{lines_view, LyricLineOwned, LyricsFormat, SpecLine};
use crate::lyrics::yrc::{parse_yrc, spec_parse_yrc};

verus! {

/// The lines of a TTML document read from `evs`, or none where reading failed.
pub open spec fn ttml_lines(evs: Seq<SpecXmlEvent>) -> Seq<SpecLine> {
    match ttml_from_events(evs) {
        Ok(t) => t.lines,
        Err(_) => Seq::empty(),
    }
}

/// What the parser of `format` makes of `content` (for TTML, the lines read
/// from the text's XML tokens, none where reading fails); unknown content is
/// read as LRC.
pub open spec fn parsed_as(content: Seq<char>, format: LyricsFormat) -> Seq<SpecLine> {
    match format {
        LyricsFormat::Lrc => spec_parse_lrc(content),
        LyricsFormat::Lqe => spec_parse_lqe(content),
        LyricsFormat::Yrc => spec_parse_yrc(content),
        LyricsFormat::Qrc => spec_parse_qrc(content),
        LyricsFormat::EsLrc => spec_parse_eslrc(content),
        LyricsFormat::Lys => spec_parse_lys(content),
        LyricsFormat::Ttml => ttml_lines(ttml_tokens(content)),
        LyricsFormat::Unknown => spec_parse_lrc(content),
    }
}

/// Parses lyrics in the given format. The output stays faithful to the
/// source: display normalization and timing optimization belong to
/// `to_ui_lyrics`.
pub fn parse_lyrics_with_format(content: &str, format: LyricsFormat) -> (r: Vec<LyricLineOwned>)
    requires
        format == LyricsFormat::EsLrc ==> eslrc_total(content@),
    ensures
        lines_view(r@) == parsed_as(content@, format),
{
    match format {
        LyricsFormat::Lrc => parse_lrc(content),
        LyricsFormat::Lqe => parse_lqe(content),
        LyricsFormat::Yrc => parse_yrc(content),
        LyricsFormat::Qrc => parse_qrc(content),
        LyricsFormat::EsLrc => parse_eslrc(content),
        LyricsFormat::Lys => parse_lys(content),
        LyricsFormat::Ttml => match parse_ttml(content) {
            Ok(t) => t.lines,
            Err(_) => Vec::new(),
        },
        LyricsFormat::Unknown => parse_lrc(content),
    }
}

/// What parsing `content` gives: what the parser of the detected format
/// makes of it.
pub open spec fn parsed_lyrics(content: Seq<char>) -> Seq<SpecLine> {
    parsed_as(content, spec_detect_format(content))
}

/// Whether every parser finishes on `content` (see `eslrc_parsable`).
pub open spec fn parsable(content: Seq<char>) -> bool {
    spec_detect_format(content) == LyricsFormat::EsLrc ==> eslrc_total(content)
}

/// Whether `parse_lyrics` finishes on `content`.
pub fn can_parse_lyrics(content: &str) -> (r: bool)
    ensures
        r == parsable(content@),
{
    let f = detect_format(content);
    if f == LyricsFormat::EsLrc {
        eslrc_parsable(content)
    } else {
        true
    }
}

/// Parses lyrics in the format that `detect_format` finds.
pub fn parse_lyrics(content: &str) -> (r: Vec<LyricLineOwned>)
    requires
        parsable(content@),
    ensures
        lines_view(r@) == parsed_lyrics(content@),
{
    let format = detect_format(content);
    parse_lyrics_with_format(content, format)
}

} // verus!
