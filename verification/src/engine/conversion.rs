//! Conversion of displayed lyric lines into the engine's line model, and the
//! engine's preprocessing of lines: each line starts up to a second early, and
//! a background-vocal line takes the span of the line it accompanies.
//!
//! The engine's lines carry no layout: word positions and the mask animation
//! are computed by the renderer.

use vstd::prelude::*;

use crate::engine::word_splitter::{
    chunk_and_split_words, chunk_emphasized, chunks_of, chunks_view, emphasized, spans_view, SpecChunk,
    SpecSpan, WordChunk, WordSpan,
};
use crate::lyrics::display::{opt_view, LyricLine, LyricWord, SpecUiLine, SpecUiWord};
use crate::text::{copy_string, is_blank, string_chars, string_eq_str, trim};

verus! {

/// A lyric line as the engine lays it out and animates it.
#[derive(Debug, Clone)]
pub struct LineData {
    pub text: String,
    pub words: Vec<WordSpan>,
    pub translated: Option<String>,
    pub romanized: Option<String>,
    pub start_ms: u64,
    pub end_ms: u64,
    /// A duet line (aligned to the other side).
    pub is_duet: bool,
    /// A background-vocal line.
    pub is_bg: bool,
}

pub struct SpecLineData {
    pub text: Seq<char>,
    pub words: Seq<SpecSpan>,
    pub translated: Option<Seq<char>>,
    pub romanized: Option<Seq<char>>,
    pub start_ms: u64,
    pub end_ms: u64,
    pub is_duet: bool,
    pub is_bg: bool,
}

impl View for LineData {
    type V = SpecLineData;

    open spec fn view(&self) -> SpecLineData {
        SpecLineData {
            text: self.text@,
            words: spans_view(self.words@),
            translated: opt_view(self.translated),
            romanized: opt_view(self.romanized),
            start_ms: self.start_ms,
            end_ms: self.end_ms,
            is_duet: self.is_duet,
            is_bg: self.is_bg,
        }
    }
}

pub open spec fn line_data_view(v: Seq<LineData>) -> Seq<SpecLineData> {
    v.map_values(|l: LineData| l@)
}

// ----------------------------------------------------------------------------
// Emphasis from chunks
// ----------------------------------------------------------------------------

/// Two words are taken for the same when text and start agree.
pub open spec fn same_word(a: SpecSpan, b: SpecSpan) -> bool {
    a.text == b.text && a.start_ms == b.start_ms
}

/// Whether the chunk holds the word.
pub open spec fn chunk_has(c: SpecChunk, w: SpecSpan) -> bool {
    match c {
        SpecChunk::Single(x) => same_word(x, w),
        SpecChunk::Group(g) => exists|j: int| 0 <= j < g.len() && same_word(#[trigger] g[j], w),
    }
}

/// The emphasis of the first chunk from position `k` on that holds the word;
/// `dflt` when none does.
pub open spec fn emphasis_from(cs: Seq<SpecChunk>, w: SpecSpan, k: int, dflt: bool) -> bool
    decreases cs.len() - k,
{
    if k < 0 || k >= cs.len() {
        dflt
    } else if chunk_has(cs[k], w) {
        chunk_emphasized(cs[k])
    } else {
        emphasis_from(cs, w, k + 1, dflt)
    }
}

/// Each word with the emphasis of the first chunk of the words' split form
/// that holds it; a word that no chunk holds keeps its emphasis.
pub open spec fn chunk_emphasis(ws: Seq<SpecSpan>) -> Seq<SpecSpan> {
    Seq::new(
        ws.len(),
        |i: int| SpecSpan { emphasize: emphasis_from(chunks_of(ws), ws[i], 0, ws[i].emphasize), ..ws[i] },
    )
}

proof fn lemma_group_has(g: Seq<SpecSpan>, w: SpecSpan, j: int)
    requires
        0 <= j < g.len(),
        same_word(g[j], w),
    ensures
        chunk_has(SpecChunk::Group(g), w),
{
    assert(SpecChunk::Group(g) matches SpecChunk::Group(h) && h == g);
}

fn same_word_exec(a: &WordSpan, b: &WordSpan) -> (r: bool)
    ensures
        r == same_word(a@, b@),
{
    a.start_ms == b.start_ms && string_eq_str(&a.text, b.text.as_str())
}

fn chunk_has_exec(c: &WordChunk, w: &WordSpan) -> (r: bool)
    ensures
        r == chunk_has(c@, w@),
{
    match c {
        WordChunk::Single(x) => same_word_exec(x, w),
        WordChunk::Group(g) => {
            let ghost gv = spans_view(g@);
            let mut j: usize = 0;
            while j < g.len()
                invariant
                    j <= g.len(),
                    gv == spans_view(g@),
                    gv.len() == g@.len(),
                    c@ == SpecChunk::Group(gv),
                    forall|k: int| 0 <= k < j ==> !same_word(#[trigger] gv[k], w@),
                decreases g.len() - j,
            {
                assert(gv[j as int] == g@[j as int]@);
                if same_word_exec(&g[j], w) {
                    proof {
                        lemma_group_has(gv, w@, j as int);
                    }
                    return true;
                }
                j += 1;
            }
            false
        },
    }
}

fn emphasis_for(chunks: &Vec<WordChunk>, w: &WordSpan) -> (r: bool)
    ensures
        r == emphasis_from(chunks_view(chunks@), w@, 0, w.emphasize),
{
    let ghost cv = chunks_view(chunks@);
    let mut c: usize = 0;
    while c < chunks.len()
        invariant
            c <= chunks.len(),
            cv == chunks_view(chunks@),
            emphasis_from(cv, w@, 0, w.emphasize) == emphasis_from(cv, w@, c as int, w.emphasize),
        decreases chunks.len() - c,
    {
        if chunk_has_exec(&chunks[c], w) {
            return chunks[c].should_emphasize();
        }
        c += 1;
    }
    w.emphasize
}

/// Gives each word the emphasis of the chunk that holds it (see
/// [`chunk_emphasis`]).
pub fn apply_chunk_emphasis(words: &mut Vec<WordSpan>)
    ensures
        spans_view(final(words)@) == chunk_emphasis(spans_view(old(words)@)),
{
    let chunks = chunk_and_split_words(words);
    let ghost w0 = spans_view(words@);
    let ghost cs = chunks_of(w0);
    let mut i: usize = 0;
    while i < words.len()
        invariant
            i <= words.len(),
            words@.len() == w0.len(),
            chunks_view(chunks@) == cs,
            cs == chunks_of(w0),
            forall|k: int| 0 <= k < i ==> (#[trigger] words@[k])@ == chunk_emphasis(w0)[k],
            forall|k: int| i <= k < words@.len() ==> (#[trigger] words@[k])@ == w0[k],
        decreases words.len() - i,
    {
        let e = emphasis_for(&chunks, &words[i]);
        words[i].emphasize = e;
        i += 1;
    }
    assert(spans_view(words@) =~= chunk_emphasis(w0));
}

// ----------------------------------------------------------------------------
// Conversion
// ----------------------------------------------------------------------------

/// The displayed words as engine words, not yet emphasized; the last one is
/// marked as such.
pub open spec fn fresh_words(ws: Seq<SpecUiWord>) -> Seq<SpecSpan> {
    Seq::new(
        ws.len(),
        |i: int|
            SpecSpan {
                text: ws[i].word,
                start_ms: ws[i].start_ms,
                end_ms: ws[i].end_ms,
                roman_word: None,
                emphasize: false,
                is_last_word: i == ws.len() - 1,
            },
    )
}

/// A displayed line as an engine line.
pub open spec fn converted_line(l: SpecUiLine, bg: bool) -> SpecLineData {
    SpecLineData {
        text: l.text,
        words: chunk_emphasis(fresh_words(l.words)),
        translated: l.translated,
        romanized: None,
        start_ms: l.start_ms,
        end_ms: l.end_ms,
        is_duet: false,
        is_bg: bg,
    }
}

/// The displayed words as engine words, emphasized by their chunks.
pub fn convert_words(old_words: &Vec<LyricWord>) -> (r: Vec<WordSpan>)
    ensures
        spans_view(r@) == chunk_emphasis(fresh_words(old_words@.map_values(|w: LyricWord| w@))),
{
    let ghost ov = old_words@.map_values(|w: LyricWord| w@);
    let n = old_words.len();
    let mut words: Vec<WordSpan> = Vec::new();
    let mut i: usize = 0;
    while i < n
        invariant
            i <= n,
            n == old_words@.len(),
            ov == old_words@.map_values(|w: LyricWord| w@),
            words@.len() == i,
            forall|k: int| 0 <= k < i ==> (#[trigger] words@[k])@ == fresh_words(ov)[k],
        decreases n - i,
    {
        let w = &old_words[i];
        words.push(
            WordSpan {
                text: copy_string(&w.word),
                start_ms: w.start_ms,
                end_ms: w.end_ms,
                roman_word: None,
                emphasize: false,
                is_last_word: i == n - 1,
            },
        );
        i += 1;
    }
    assert(spans_view(words@) =~= fresh_words(ov));
    apply_chunk_emphasis(&mut words);
    words
}

fn copy_opt(o: &Option<String>) -> (r: Option<String>)
    ensures
        opt_view(r) == opt_view(*o),
{
    match o {
        Some(s) => Some(copy_string(s)),
        None => None,
    }
}

fn convert_line(l: &LyricLine, bg: bool) -> (r: LineData)
    ensures
        r@ == converted_line(l@, bg),
{
    LineData {
        text: copy_string(&l.text),
        words: convert_words(&l.words),
        translated: copy_opt(&l.translated),
        romanized: None,
        start_ms: l.start_ms,
        end_ms: l.end_ms,
        is_duet: false,
        is_bg: bg,
    }
}

/// The displayed lines as engine lines, none of them background vocals.
pub fn convert_lyric_lines(old_lines: &Vec<LyricLine>) -> (r: Vec<LineData>)
    ensures
        r@.len() == old_lines@.len(),
        forall|i: int| 0 <= i < r@.len() ==> (#[trigger] r@[i])@ == converted_line(old_lines@[i]@, false),
{
    let mut out: Vec<LineData> = Vec::new();
    let mut i: usize = 0;
    while i < old_lines.len()
        invariant
            i <= old_lines.len(),
            out@.len() == i,
            forall|k: int| 0 <= k < i ==> (#[trigger] out@[k])@ == converted_line(old_lines@[k]@, false),
        decreases old_lines.len() - i,
    {
        out.push(convert_line(&old_lines[i], false));
        i += 1;
    }
    out
}

/// The stored lines as engine lines, keeping which are background vocals.
pub fn convert_from_db_lyrics(db_lyrics: &Vec<LyricLine>) -> (r: Vec<LineData>)
    ensures
        r@.len() == db_lyrics@.len(),
        forall|i: int|
            0 <= i < r@.len() ==> (#[trigger] r@[i])@ == converted_line(db_lyrics@[i]@, db_lyrics@[i].is_background),
{
    let mut out: Vec<LineData> = Vec::new();
    let mut i: usize = 0;
    while i < db_lyrics.len()
        invariant
            i <= db_lyrics.len(),
            out@.len() == i,
            forall|k: int|
                0 <= k < i ==> (#[trigger] out@[k])@ == converted_line(db_lyrics@[k]@, db_lyrics@[k].is_background),
        decreases db_lyrics.len() - i,
    {
        let bg = db_lyrics[i].is_background;
        out.push(convert_line(&db_lyrics[i], bg));
        i += 1;
    }
    out
}

// ----------------------------------------------------------------------------
// Preprocessing
// ----------------------------------------------------------------------------

/// The start of line `i` brought forward by up to a second, but not before
/// the previous line's end (nor later than it was).
pub open spec fn lead_in_start(ls: Seq<SpecLineData>, i: int) -> u64 {
    let prev_end: u64 = if i > 0 { ls[i - 1].end_ms } else { 0 };
    let s = ls[i].start_ms;
    let early: u64 = if s >= 1000 { (s - 1000) as u64 } else { 0 };
    let m: u64 = if early >= prev_end { early } else { prev_end };
    if m <= s { m } else { s }
}

/// Every line but a background vocal starts early (see [`lead_in_start`]).
pub open spec fn led_in(ls: Seq<SpecLineData>) -> Seq<SpecLineData> {
    Seq::new(
        ls.len(),
        |i: int| if ls[i].is_bg { ls[i] } else { SpecLineData { start_ms: lead_in_start(ls, i), ..ls[i] } },
    )
}

/// Whether the word has text other than whitespace.
pub open spec fn voiced(w: SpecSpan) -> bool {
    trim(w.text).len() > 0
}

/// The earliest start of the voiced words, if any.
pub open spec fn voiced_start(ws: Seq<SpecSpan>) -> Option<u64>
    decreases ws.len(),
{
    if ws.len() == 0 {
        None
    } else {
        let rest = voiced_start(ws.drop_last());
        let w = ws.last();
        if !voiced(w) {
            rest
        } else {
            match rest {
                Some(m) => Some(if m <= w.start_ms { m } else { w.start_ms }),
                None => Some(w.start_ms),
            }
        }
    }
}

/// The latest end of the voiced words, if any.
pub open spec fn voiced_end(ws: Seq<SpecSpan>) -> Option<u64>
    decreases ws.len(),
{
    if ws.len() == 0 {
        None
    } else {
        let rest = voiced_end(ws.drop_last());
        let w = ws.last();
        if !voiced(w) {
            rest
        } else {
            match rest {
                Some(m) => Some(if m >= w.end_ms { m } else { w.end_ms }),
                None => Some(w.end_ms),
            }
        }
    }
}

/// A background-vocal line that follows a main line spans both itself (its
/// voiced words) and that line.
pub open spec fn bg_synced(ls: Seq<SpecLineData>) -> Seq<SpecLineData> {
    Seq::new(
        ls.len(),
        |j: int|
            if 1 <= j && ls[j].is_bg && !ls[j - 1].is_bg {
                let p = ls[j - 1];
                let bs: u64 = match voiced_start(ls[j].words) {
                    Some(m) => m,
                    None => p.start_ms,
                };
                let be: u64 = match voiced_end(ls[j].words) {
                    Some(m) => m,
                    None => p.end_ms,
                };
                SpecLineData {
                    start_ms: if bs <= p.start_ms { bs } else { p.start_ms },
                    end_ms: if be >= p.end_ms { be } else { p.end_ms },
                    ..ls[j]
                }
            } else {
                ls[j]
            },
    )
}

/// A main line starts at most a second earlier than before, never later, and
/// not before the previous line ends if that line ended in time; nothing else
/// of it changes.
pub proof fn law_lead_in_bounds(ls: Seq<SpecLineData>, i: int)
    requires
        0 <= i < ls.len(),
        !ls[i].is_bg,
    ensures
        bg_synced(led_in(ls))[i].start_ms <= ls[i].start_ms,
        ls[i].start_ms <= bg_synced(led_in(ls))[i].start_ms + 1000,
        i > 0 && ls[i - 1].end_ms <= ls[i].start_ms ==> ls[i - 1].end_ms <= bg_synced(led_in(ls))[i].start_ms,
        bg_synced(led_in(ls))[i] == (SpecLineData { start_ms: bg_synced(led_in(ls))[i].start_ms, ..ls[i] }),
{
}

fn voiced_span(ws: &Vec<WordSpan>) -> (r: (Option<u64>, Option<u64>))
    ensures
        r.0 == voiced_start(spans_view(ws@)),
        r.1 == voiced_end(spans_view(ws@)),
{
    let ghost wv = spans_view(ws@);
    let mut lo: Option<u64> = None;
    let mut hi: Option<u64> = None;
    let mut i: usize = 0;
    while i < ws.len()
        invariant
            i <= ws.len(),
            wv == spans_view(ws@),
            lo == voiced_start(wv.take(i as int)),
            hi == voiced_end(wv.take(i as int)),
        decreases ws.len() - i,
    {
        assert(wv.take(i + 1).drop_last() =~= wv.take(i as int));
        assert(wv.take(i + 1).last() == ws@[i as int]@);
        let t = string_chars(&ws[i].text);
        if !is_blank(&t) {
            let s = ws[i].start_ms;
            let e = ws[i].end_ms;
            lo = match lo {
                Some(m) => Some(if m <= s { m } else { s }),
                None => Some(s),
            };
            hi = match hi {
                Some(m) => Some(if m >= e { m } else { e }),
                None => Some(e),
            };
        }
        i += 1;
    }
    assert(wv.take(ws.len() as int) =~= wv);
    (lo, hi)
}

/// Prepares lines for display: each line that is not a background vocal
/// starts up to a second early (not before the previous line ends), then a
/// background-vocal line after a main line takes the span of both.
pub fn process_lyrics_amll_style(lines: &mut Vec<LineData>)
    ensures
        line_data_view(final(lines)@) == bg_synced(led_in(line_data_view(old(lines)@))),
{
    let ghost l0 = line_data_view(lines@);
    let n = lines.len();
    if n == 0 {
        assert(line_data_view(lines@) =~= bg_synced(led_in(l0)));
        return;
    }
    let ghost s1 = led_in(l0);
    let mut i: usize = n;
    while i > 0
        invariant
            i <= n,
            n == lines@.len(),
            l0.len() == n,
            s1 == led_in(l0),
            forall|k: int| 0 <= k < i ==> (#[trigger] lines@[k])@ == l0[k],
            forall|k: int| i <= k < n ==> (#[trigger] lines@[k])@ == s1[k],
        decreases i,
    {
        i -= 1;
        if !lines[i].is_bg {
            let prev_end: u64 = if i > 0 { lines[i - 1].end_ms } else { 0 };
            let s = lines[i].start_ms;
            let early: u64 = s.saturating_sub(1000);
            let m: u64 = if early >= prev_end { early } else { prev_end };
            lines[i].start_ms = if m <= s { m } else { s };
        }
    }
    let mut i: usize = 0;
    while i < n
        invariant
            i <= n,
            n == lines@.len(),
            s1.len() == n,
            forall|k: int| 0 <= k < n ==> (#[trigger] lines@[k])@ == (if k <= i { bg_synced(s1)[k] } else { s1[k] }),
        decreases n - i,
    {
        if !lines[i].is_bg && i + 1 < n && lines[i + 1].is_bg {
            let (lo, hi) = voiced_span(&lines[i + 1].words);
            let ps = lines[i].start_ms;
            let pe = lines[i].end_ms;
            let bs: u64 = match lo {
                Some(m) => m,
                None => ps,
            };
            let be: u64 = match hi {
                Some(m) => m,
                None => pe,
            };
            lines[i + 1].start_ms = if bs <= ps { bs } else { ps };
            lines[i + 1].end_ms = if be >= pe { be } else { pe };
        }
        i += 1;
    }
    assert(line_data_view(lines@) =~= bg_synced(s1));
}

/// Whether any word of the line is emphasized on its own.
pub fn line_has_emphasis(line: &LineData) -> (r: bool)
    ensures
        r == exists|j: int| 0 <= j < line.words@.len() && emphasized(#[trigger] line.words@[j]@),
{
    let mut j: usize = 0;
    while j < line.words.len()
        invariant
            j <= line.words.len(),
            forall|k: int| 0 <= k < j ==> !emphasized(#[trigger] line.words@[k]@),
        decreases line.words.len() - j,
    {
        if line.words[j].should_emphasize() {
            return true;
        }
        j += 1;
    }
    false
}

/// The line's duration (zero when its end comes before its start).
pub fn line_duration_ms(line: &LineData) -> (r: u64)
    ensures
        r == (if line.end_ms >= line.start_ms { line.end_ms - line.start_ms } else { 0 }),
{
    line.end_ms.saturating_sub(line.start_ms)
}

} // verus!
