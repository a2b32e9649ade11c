//! Lyrics as the player shows them: display times in milliseconds, the line's
//! text, and normalized typography.

use vstd::prelude::*;

use crate::lyrics::optimize::{
    advance_starts, clean_overlaps, demote_bg, norm_line, optimize_lyrics_lines, optimized, reset_line, sync_pairs,
};
use crate::lyrics::types::{lines_view, normalize_lyric_text, normalized_text, LyricLineOwned, SpecLine, SpecWord};
use crate::text::{push_str, string_is_empty};

verus! {

/// A word as displayed.
#[derive(Debug, Clone, PartialEq)]
pub struct LyricWord {
    pub start_ms: u64,
    pub end_ms: u64,
    pub word: String,
}

/// A line as displayed.
#[derive(Debug, Clone, PartialEq)]
pub struct LyricLine {
    pub start_ms: u64,
    pub end_ms: u64,
    /// The words' texts, joined.
    pub text: String,
    pub words: Vec<LyricWord>,
    pub translated: Option<String>,
    pub romanized: Option<String>,
    pub is_background: bool,
    pub is_duet: bool,
}

pub struct SpecUiWord {
    pub start_ms: u64,
    pub end_ms: u64,
    pub word: Seq<char>,
}

pub struct SpecUiLine {
    pub start_ms: u64,
    pub end_ms: u64,
    pub text: Seq<char>,
    pub words: Seq<SpecUiWord>,
    pub translated: Option<Seq<char>>,
    pub romanized: Option<Seq<char>>,
    pub is_background: bool,
    pub is_duet: bool,
}

impl View for LyricWord {
    type V = SpecUiWord;

    open spec fn view(&self) -> SpecUiWord {
        SpecUiWord { start_ms: self.start_ms, end_ms: self.end_ms, word: self.word@ }
    }
}

pub open spec fn opt_view(o: Option<String>) -> Option<Seq<char>> {
    match o {
        Some(s) => Some(s@),
        None => None,
    }
}

impl View for LyricLine {
    type V = SpecUiLine;

    open spec fn view(&self) -> SpecUiLine {
        SpecUiLine {
            start_ms: self.start_ms,
            end_ms: self.end_ms,
            text: self.text@,
            words: self.words@.map_values(|w: LyricWord| w@),
            translated: opt_view(self.translated),
            romanized: opt_view(self.romanized),
            is_background: self.is_background,
            is_duet: self.is_duet,
        }
    }
}

pub open spec fn ui_lines_view(v: Seq<LyricLine>) -> Seq<SpecUiLine> {
    v.map_values(|l: LyricLine| l@)
}

pub open spec fn ui_word(w: SpecWord) -> SpecUiWord {
    SpecUiWord { start_ms: w.start_time, end_ms: w.end_time, word: normalized_text(w.word) }
}

/// The texts of `ws` joined.
pub open spec fn joined(ws: Seq<SpecUiWord>) -> Seq<char>
    decreases ws.len(),
{
    if ws.len() == 0 {
        Seq::empty()
    } else {
        joined(ws.drop_last()) + ws.last().word
    }
}

/// A text that is absent when empty, normalized otherwise.
pub open spec fn optional_text(s: Seq<char>) -> Option<Seq<char>> {
    if s.len() == 0 {
        None
    } else {
        Some(normalized_text(s))
    }
}

/// A line as displayed: its words normalized and joined into its text.
pub open spec fn ui_line(l: SpecLine) -> SpecUiLine {
    let words = l.words.map_values(|w: SpecWord| ui_word(w));
    SpecUiLine {
        start_ms: l.start_time,
        end_ms: l.end_time,
        text: joined(words),
        words,
        translated: optional_text(l.translated_lyric),
        romanized: optional_text(l.roman_lyric),
        is_background: l.is_bg,
        is_duet: l.is_duet,
    }
}

/// The display form of parsed lines: timing optimized, then each line converted.
pub open spec fn ui_lyrics(lines: Seq<SpecLine>) -> Seq<SpecUiLine> {
    optimized(lines).map_values(|l: SpecLine| ui_line(l))
}

fn optional_text_exec(s: &String) -> (r: Option<String>)
    ensures
        opt_view(r) == optional_text(s@),
{
    if string_is_empty(s) {
        None
    } else {
        Some(normalize_lyric_text(s.as_str()))
    }
}

fn ui_line_exec(line: &LyricLineOwned) -> (r: LyricLine)
    ensures
        r@ == ui_line(line@),
{
    let ghost ws = line@.words.map_values(|w: SpecWord| ui_word(w));
    let mut words: Vec<LyricWord> = Vec::new();
    let mut text = String::new();
    let mut i: usize = 0;
    while i < line.words.len()
        invariant
            i <= line.words.len(),
            ws == line@.words.map_values(|w: SpecWord| ui_word(w)),
            words@.map_values(|w: LyricWord| w@) == ws.take(i as int),
            text@ == joined(ws.take(i as int)),
        decreases line.words.len() - i,
    {
        let w = &line.words[i];
        assert(line@.words[i as int] == w@);
        let word = normalize_lyric_text(w.word.as_str());
        push_str(&mut text, word.as_str());
        let ghost before = words@;
        words.push(LyricWord { start_ms: w.start_time, end_ms: w.end_time, word });
        assert(ws.take(i + 1).drop_last() =~= ws.take(i as int));
        assert(words@.map_values(|w: LyricWord| w@) =~= ws.take(i + 1));
        i += 1;
    }
    assert(ws.take(line.words.len() as int) =~= ws);
    LyricLine {
        start_ms: line.start_time,
        end_ms: line.end_time,
        text,
        words,
        translated: optional_text_exec(&line.translated_lyric),
        romanized: optional_text_exec(&line.roman_lyric),
        is_background: line.is_bg,
        is_duet: line.is_duet,
    }
}

/// Converts parsed lyrics to the display form. The timing optimization is
/// applied to this copy only, so the parsed lines keep their source times.
pub fn to_ui_lyrics(lines: Vec<LyricLineOwned>) -> (r: Vec<LyricLine>)
    ensures
        ui_lines_view(r@) == ui_lyrics(lines_view(lines@)),
{
    let mut lines = lines;
    optimize_lyrics_lines(&mut lines);
    let ghost ov = lines_view(lines@);
    let mut out: Vec<LyricLine> = Vec::new();
    let mut i: usize = 0;
    while i < lines.len()
        invariant
            i <= lines.len(),
            ov == lines_view(lines@),
            ui_lines_view(out@) == ov.take(i as int).map_values(|l: SpecLine| ui_line(l)),
        decreases lines.len() - i,
    {
        assert(ov[i as int] == lines@[i as int]@);
        let u = ui_line_exec(&lines[i]);
        let ghost prev = out@;
        let ghost uv = u@;
        out.push(u);
        assert(ui_lines_view(out@) =~= ui_lines_view(prev).push(uv));
        assert(ov.take(i + 1).map_values(|l: SpecLine| ui_line(l)) =~= ov.take(i as int).map_values(
            |l: SpecLine| ui_line(l),
        ).push(ui_line(ov[i as int])));
        i += 1;
    }
    assert(ov.take(lines.len() as int) =~= ov);
    out
}

/// The display form keeps what the timing optimization decided: one display
/// line per parsed line, with the optimized line's times, its words' times in
/// order, and its background flag; the text is the words joined; a translation
/// is shown exactly where the parsed line has one; the duet flag is the
/// parsed line's.
pub proof fn lemma_display_keeps_timing(lines: Seq<SpecLine>)
    ensures
        optimized(lines).len() == lines.len(),
        ui_lyrics(lines).len() == lines.len(),
        forall|i: int|
            0 <= i < lines.len() ==> {
                let u = #[trigger] ui_lyrics(lines)[i];
                let o = optimized(lines)[i];
                &&& u.start_ms == o.start_time
                &&& u.end_ms == o.end_time
                &&& u.words.len() == o.words.len()
                &&& (forall|j: int|
                    0 <= j < u.words.len() ==> (#[trigger] u.words[j]).start_ms == o.words[j].start_time
                        && u.words[j].end_ms == o.words[j].end_time)
                &&& u.text == joined(u.words)
                &&& (u.translated is None <==> lines[i].translated_lyric.len() == 0)
                &&& u.is_background == o.is_bg
                &&& u.is_duet == lines[i].is_duet
            },
{
    let n0 = lines.map_values(|l: SpecLine| reset_line(norm_line(l)));
    let n1 = demote_bg(n0);
    let n2 = sync_pairs(n1);
    let n3 = clean_overlaps(n2);
    let o = advance_starts(n3);
    assert(o == optimized(lines));
    assert forall|i: int| 0 <= i < lines.len() implies o[i].translated_lyric == normalized_text(
        lines[i].translated_lyric,
    ) && o[i].is_duet == lines[i].is_duet by {
        assert(n0[i] == reset_line(norm_line(lines[i])));
        assert(n1[i].translated_lyric == n0[i].translated_lyric && n1[i].is_duet == n0[i].is_duet);
        assert(n2[i].translated_lyric == n1[i].translated_lyric && n2[i].is_duet == n1[i].is_duet);
        assert(n3[i].translated_lyric == n2[i].translated_lyric && n3[i].is_duet == n2[i].is_duet);
    }
}

} // verus!
