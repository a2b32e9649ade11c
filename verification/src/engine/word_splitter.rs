//! Word splitting and chunking for the emphasis animation.
//!
//! Words that hold two or more space-separated parts are split into their
//! parts (with times interpolated by byte position) and spaces; then
//! consecutive words without whitespace between them are grouped, so that a
//! group shares its emphasis. CJK words always stand alone.
//!
//! For example `["Life", " ", "is", " a", " su", "gar so", "sweet"]` becomes
//! `["Life", " ", "is", " a", [" su", "gar"], " ", ["so", "sweet"]]`.

use vstd::prelude::*;

use crate::engine::types::cjk_like;
use crate::text::{copy_string, sat64, is_whitespace, is_ws, push_chars, split, split_chars, string_chars, string_of, trim, trim_chars, utf8_len, views};

verus! {

/// A word of a lyric line with its times, as the emphasis logic sees it.
#[derive(Debug, Clone)]
pub struct WordSpan {
    pub text: String,
    pub start_ms: u64,
    pub end_ms: u64,
    pub roman_word: Option<String>,
    /// Whether the word is emphasized (glows).
    pub emphasize: bool,
    /// Whether this is the last word of its line.
    pub is_last_word: bool,
}

pub struct SpecSpan {
    pub text: Seq<char>,
    pub start_ms: u64,
    pub end_ms: u64,
    pub roman_word: Option<Seq<char>>,
    pub emphasize: bool,
    pub is_last_word: bool,
}

impl View for WordSpan {
    type V = SpecSpan;

    open spec fn view(&self) -> SpecSpan {
        SpecSpan {
            text: self.text@,
            start_ms: self.start_ms,
            end_ms: self.end_ms,
            roman_word: match self.roman_word {
                Some(r) => Some(r@),
                None => None,
            },
            emphasize: self.emphasize,
            is_last_word: self.is_last_word,
        }
    }
}

pub open spec fn spans_view(v: Seq<WordSpan>) -> Seq<SpecSpan> {
    v.map_values(|w: WordSpan| w@)
}

/// A single word, or a group of words sharing their emphasis.
#[derive(Debug, Clone)]
pub enum WordChunk {
    Single(WordSpan),
    Group(Vec<WordSpan>),
}

pub enum SpecChunk {
    Single(SpecSpan),
    Group(Seq<SpecSpan>),
}

impl View for WordChunk {
    type V = SpecChunk;

    open spec fn view(&self) -> SpecChunk {
        match self {
            WordChunk::Single(w) => SpecChunk::Single(w@),
            WordChunk::Group(ws) => SpecChunk::Group(spans_view(ws@)),
        }
    }
}

pub open spec fn chunks_view(v: Seq<WordChunk>) -> Seq<SpecChunk> {
    v.map_values(|c: WordChunk| c@)
}

// ----------------------------------------------------------------------------
// Emphasis
// ----------------------------------------------------------------------------

pub open spec fn duration(w: SpecSpan) -> u64 {
    if w.end_ms >= w.start_ms { (w.end_ms - w.start_ms) as u64 } else { 0 }
}

/// Non-empty text whose characters are all in the broad CJK range.
pub open spec fn cjk_text(t: Seq<char>) -> bool {
    t.len() > 0 && forall|i: int| 0 <= i < t.len() ==> cjk_like(#[trigger] t[i])
}

/// A word is emphasized when it lasts at least a second and, unless it is
/// CJK, its trimmed text takes two to seven bytes.
pub open spec fn emphasized(w: SpecSpan) -> bool {
    let t = trim(w.text);
    duration(w) >= 1000 && (cjk_text(t) || (1 < utf8_len(t) && utf8_len(t) <= 7))
}

/// The UTF-8 length of `v`, saturating at `u64::MAX`.
fn utf8_len_sat(v: &Vec<char>) -> (r: u64)
    ensures
        r == sat64(utf8_len(v@)),
{
    let mut acc: u64 = 0;
    let mut i: usize = 0;
    while i < v.len()
        invariant
            i <= v.len(),
            acc == sat64(utf8_len(v@.take(i as int))),
        decreases v.len() - i,
    {
        assert(v@.take(i + 1).drop_last() =~= v@.take(i as int));
        let u = v[i] as u32;
        let l: u64 = if u < 0x80 { 1 } else if u < 0x800 { 2 } else if u < 0x10000 { 3 } else { 4 };
        acc = acc.saturating_add(l);
        i += 1;
    }
    assert(v@.take(v.len() as int) =~= v@);
    acc
}

fn cjk_text_exec(t: &Vec<char>) -> (r: bool)
    ensures
        r == cjk_text(t@),
{
    if t.len() == 0 {
        return false;
    }
    let mut i: usize = 0;
    while i < t.len()
        invariant
            i <= t.len(),
            forall|j: int| 0 <= j < i ==> cjk_like(#[trigger] t@[j]),
        decreases t.len() - i,
    {
        let c = t[i];
        if !(('\u{0800}' <= c && c <= '\u{9FFC}') || ('\u{AC00}' <= c && c <= '\u{D7AF}')) {
            assert(!cjk_like(t@[i as int]));
            return false;
        }
        i += 1;
    }
    true
}

impl WordSpan {
    /// Whether this word is emphasized on its own.
    pub fn should_emphasize(&self) -> (r: bool)
        ensures
            r == emphasized(self@),
    {
        let dur = self.start_ms <= self.end_ms;
        if !(dur && self.end_ms - self.start_ms >= 1000) {
            return false;
        }
        let v = string_chars(&self.text);
        let t = trim_chars(&v);
        if cjk_text_exec(&t) {
            return true;
        }
        let len = utf8_len_sat(&t);
        len > 1 && len <= 7
    }
}

fn copy_span(w: &WordSpan) -> (r: WordSpan)
    ensures
        r@ == w@,
{
    WordSpan {
        text: copy_string(&w.text),
        start_ms: w.start_ms,
        end_ms: w.end_ms,
        roman_word: match &w.roman_word {
            Some(x) => Some(copy_string(x)),
            None => None,
        },
        emphasize: w.emphasize,
        is_last_word: w.is_last_word,
    }
}

// ----------------------------------------------------------------------------
// Splitting words at spaces
// ----------------------------------------------------------------------------

/// `s` without its whitespace characters.
pub open spec fn remove_ws(s: Seq<char>) -> Seq<char>
    decreases s.len(),
{
    if s.len() == 0 {
        Seq::empty()
    } else {
        let r = remove_ws(s.drop_last());
        if is_ws(s.last()) {
            r
        } else {
            r.push(s.last())
        }
    }
}

/// The non-empty pieces.
pub open spec fn nonempty(ps: Seq<Seq<char>>) -> Seq<Seq<char>>
    decreases ps.len(),
{
    if ps.len() == 0 {
        Seq::empty()
    } else {
        let r = nonempty(ps.drop_last());
        if ps.last().len() > 0 {
            r.push(ps.last())
        } else {
            r
        }
    }
}

/// A space between split parts: untimed.
pub open spec fn space_span() -> SpecSpan {
    SpecSpan { text: seq![' '], start_ms: 0, end_ms: 0, roman_word: None, emphasize: false, is_last_word: false }
}

/// Byte offset of part `k` within the word's parts (sum of the earlier
/// parts' UTF-8 lengths, each saturating, the sum wrapping modulo 2^64).
pub open spec fn part_offset(parts: Seq<Seq<char>>, k: int) -> u64
    decreases k,
{
    if k <= 0 {
        0
    } else {
        part_offset(parts, k - 1).wrapping_add(sat64(utf8_len(parts[k - 1])))
    }
}

/// The time at byte `pos` of a word whose text has `solid` non-whitespace
/// bytes, by linear interpolation over its duration (`fallback` when the
/// word has no such byte). The arithmetic wraps modulo 2^64.
pub open spec fn interpolated(w: SpecSpan, pos: u64, solid: u64, fallback: u64) -> u64 {
    if solid > 0 {
        w.start_ms.wrapping_add((pos.wrapping_mul(duration(w)) / solid) as u64)
    } else {
        fallback
    }
}

pub open spec fn part_span(w: SpecSpan, parts: Seq<Seq<char>>, i: int) -> SpecSpan {
    let solid = sat64(utf8_len(remove_ws(w.text)));
    let pos = part_offset(parts, i);
    SpecSpan {
        text: parts[i],
        start_ms: interpolated(w, pos, solid, w.start_ms),
        end_ms: interpolated(w, pos.wrapping_add(sat64(utf8_len(parts[i]))), solid, w.end_ms),
        roman_word: None,
        emphasize: false,
        is_last_word: w.is_last_word && i == parts.len() - 1,
    }
}

/// The first `k` parts, each but the last part followed by a space.
pub open spec fn parts_spans(w: SpecSpan, parts: Seq<Seq<char>>, k: int) -> Seq<SpecSpan>
    decreases k,
{
    if k <= 0 {
        Seq::empty()
    } else {
        parts_spans(w, parts, k - 1) + seq![part_span(w, parts, k - 1)] + if k - 1 < parts.len() - 1 {
            seq![space_span()]
        } else {
            Seq::empty()
        }
    }
}

/// A word with more than one space-separated part becomes its parts and
/// spaces (with a leading space if the word starts with one); any other
/// word stays as it is.
pub open spec fn split_word(w: SpecSpan) -> Seq<SpecSpan> {
    let parts = nonempty(split(w.text, ' '));
    if parts.len() > 1 {
        (if w.text.len() > 0 && w.text[0] == ' ' { seq![space_span()] } else { Seq::empty() }) + parts_spans(
            w,
            parts,
            parts.len() as int,
        )
    } else {
        seq![w]
    }
}

pub open spec fn resplit(ws: Seq<SpecSpan>) -> Seq<SpecSpan>
    decreases ws.len(),
{
    if ws.len() == 0 {
        Seq::empty()
    } else {
        resplit(ws.drop_last()) + split_word(ws.last())
    }
}

fn space_word() -> (r: WordSpan)
    ensures
        r@ == space_span(),
{
    let mut t = String::new();
    crate::text::push_char(&mut t, ' ');
    assert(t@ =~= seq![' ']);
    WordSpan { text: t, start_ms: 0, end_ms: 0, roman_word: None, emphasize: false, is_last_word: false }
}

fn nonempty_exec(ps: Vec<Vec<char>>) -> (r: Vec<Vec<char>>)
    ensures
        views(r@) == nonempty(views(ps@)),
{
    let ghost pv = views(ps@);
    let mut r: Vec<Vec<char>> = Vec::new();
    let mut i: usize = 0;
    assert(pv.take(0) =~= Seq::<Seq<char>>::empty());
    while i < ps.len()
        invariant
            i <= ps.len(),
            pv == views(ps@),
            views(r@) == nonempty(pv.take(i as int)),
        decreases ps.len() - i,
    {
        assert(pv.take(i + 1).drop_last() =~= pv.take(i as int));
        assert(pv.take(i + 1).last() == ps@[i as int]@);
        if ps[i].len() > 0 {
            let x = crate::text::subvec(&ps[i], 0, ps[i].len());
            assert(x@ =~= ps@[i as int]@);
            let ghost prev = r@;
            r.push(x);
            assert(views(r@) =~= views(prev).push(ps@[i as int]@));
        }
        i += 1;
    }
    assert(pv.take(ps.len() as int) =~= pv);
    r
}

fn remove_ws_exec(v: &Vec<char>) -> (r: Vec<char>)
    ensures
        r@ == remove_ws(v@),
{
    let mut r: Vec<char> = Vec::new();
    let mut i: usize = 0;
    while i < v.len()
        invariant
            i <= v.len(),
            r@ == remove_ws(v@.take(i as int)),
        decreases v.len() - i,
    {
        assert(v@.take(i + 1).drop_last() =~= v@.take(i as int));
        if !is_whitespace(v[i]) {
            r.push(v[i]);
        }
        i += 1;
    }
    assert(v@.take(v.len() as int) =~= v@);
    r
}

fn split_word_exec(w: &WordSpan, out: &mut Vec<WordSpan>)
    ensures
        spans_view(final(out)@) == spans_view(old(out)@) + split_word(w@),
{
    let ghost o0 = spans_view(out@);
    let text = string_chars(&w.text);
    let pieces = split_chars(&text, ' ');
    let parts = nonempty_exec(pieces);
    let ghost pv = views(parts@);
    if parts.len() > 1 {
        if text.len() > 0 && text[0] == ' ' {
            let sp = space_word();
            let ghost prev = out@;
            out.push(sp);
            assert(spans_view(out@) =~= spans_view(prev).push(space_span()));
        }
        let ghost o1 = spans_view(out@);
        assert(o1 == o0 + (if w@.text.len() > 0 && w@.text[0] == ' ' { seq![space_span()] } else { Seq::<SpecSpan>::empty() }));
        let solid = utf8_len_sat(&remove_ws_exec(&text));
        let dur: u64 = if w.end_ms >= w.start_ms { w.end_ms - w.start_ms } else { 0 };
        let mut pos: u64 = 0;
        let mut i: usize = 0;
        assert(o1 + parts_spans(w@, pv, 0) =~= o1);
        while i < parts.len()
            invariant
                i <= parts.len(),
                parts.len() > 1,
                pv == views(parts@),
                pv == nonempty(split(w@.text, ' ')),
                solid == sat64(utf8_len(remove_ws(w@.text))),
                dur == duration(w@),
                pos == part_offset(pv, i as int),
                spans_view(out@) == o1 + parts_spans(w@, pv, i as int),
            decreases parts.len() - i,
        {
            let plen = utf8_len_sat(&parts[i]);
            assert(pv[i as int] == parts@[i as int]@);
            let end_pos = pos.wrapping_add(plen);
            let start = if solid > 0 { w.start_ms.wrapping_add(pos.wrapping_mul(dur) / solid) } else { w.start_ms };
            let end = if solid > 0 { w.start_ms.wrapping_add(end_pos.wrapping_mul(dur) / solid) } else { w.end_ms };
            let span = WordSpan {
                text: string_of(&parts[i]),
                start_ms: start,
                end_ms: end,
                roman_word: None,
                emphasize: false,
                is_last_word: w.is_last_word && i == parts.len() - 1,
            };
            assert(span@ == part_span(w@, pv, i as int));
            let ghost prev = out@;
            out.push(span);
            if i < parts.len() - 1 {
                out.push(space_word());
                assert(spans_view(out@) =~= spans_view(prev) + seq![part_span(w@, pv, i as int)] + seq![space_span()]);
            } else {
                assert(spans_view(out@) =~= spans_view(prev) + seq![part_span(w@, pv, i as int)] + Seq::<SpecSpan>::empty());
            }
            assert(o1 + parts_spans(w@, pv, i + 1) =~= o1 + parts_spans(w@, pv, i as int) + seq![part_span(w@, pv, i as int)]
                + (if i < pv.len() - 1 { seq![space_span()] } else { Seq::<SpecSpan>::empty() }));
            pos = end_pos;
            i += 1;
        }
        assert(spans_view(out@) =~= o0 + split_word(w@));
    } else {
        let c = copy_span(w);
        out.push(c);
        assert(spans_view(out@) =~= o0 + split_word(w@));
    }
}

/// Splits the words that contain spaces (see [`split_word`]).
pub fn resplit_words(words: &Vec<WordSpan>) -> (r: Vec<WordSpan>)
    ensures
        spans_view(r@) == resplit(spans_view(words@)),
{
    let ghost wv = spans_view(words@);
    let mut out: Vec<WordSpan> = Vec::new();
    let mut i: usize = 0;
    assert(wv.take(0) =~= Seq::<SpecSpan>::empty());
    assert(spans_view(out@) =~= resplit(wv.take(0)));
    while i < words.len()
        invariant
            i <= words.len(),
            wv == spans_view(words@),
            spans_view(out@) == resplit(wv.take(i as int)),
        decreases words.len() - i,
    {
        assert(wv.take(i + 1).drop_last() =~= wv.take(i as int));
        assert(wv.take(i + 1).last() == words@[i as int]@);
        split_word_exec(&words[i], &mut out);
        i += 1;
    }
    assert(wv.take(words.len() as int) =~= wv);
    out
}

// ----------------------------------------------------------------------------
// Chunking
// ----------------------------------------------------------------------------

/// The texts of the words, joined.
pub open spec fn concat_text(ws: Seq<SpecSpan>) -> Seq<char>
    decreases ws.len(),
{
    if ws.len() == 0 {
        Seq::empty()
    } else {
        concat_text(ws.drop_last()) + ws.last().text
    }
}

/// Non-empty text made only of whitespace.
pub open spec fn whitespace_only(t: Seq<char>) -> bool {
    t.len() > 0 && trim(t).len() == 0
}

/// Text that is one word between optional whitespace.
pub open spec fn single_word(t: Seq<char>) -> bool {
    forall|i: int| 0 <= i < trim(t).len() ==> !is_ws(#[trigger] trim(t)[i])
}

pub open spec fn cjk_only_char(c: char) -> bool {
    ('\u{4E00}' <= c && c <= '\u{9FFF}') || ('\u{3400}' <= c && c <= '\u{4DBF}') || ('\u{0800}' <= c && c
        <= '\u{9FFC}')
}

/// Non-empty text made only of CJK characters (in the broad range).
pub open spec fn cjk_only(t: Seq<char>) -> bool {
    t.len() > 0 && forall|i: int| 0 <= i < t.len() ==> cjk_only_char(#[trigger] t[i])
}

/// The chunk being built, closed: one word stands alone, several form a group.
pub open spec fn flush(result: Seq<SpecChunk>, cur: Seq<SpecSpan>) -> Seq<SpecChunk> {
    if cur.len() == 1 {
        result.push(SpecChunk::Single(cur[0]))
    } else if cur.len() > 1 {
        result.push(SpecChunk::Group(cur))
    } else {
        result
    }
}

/// One word added: whitespace closes the chunk and stands alone; a word that
/// would put whitespace inside the chunk, or a CJK word, closes it too (a
/// CJK word then stands alone, any other starts the next chunk); otherwise
/// the word joins the chunk.
pub open spec fn chunk_step(result: Seq<SpecChunk>, cur: Seq<SpecSpan>, w: SpecSpan) -> (Seq<SpecChunk>, Seq<SpecSpan>) {
    if whitespace_only(w.text) {
        (flush(result, cur).push(SpecChunk::Single(w)), Seq::empty())
    } else if !single_word(concat_text(cur) + w.text) || cjk_only(w.text) {
        if cjk_only(w.text) {
            (flush(result, cur).push(SpecChunk::Single(w)), Seq::empty())
        } else {
            (flush(result, cur), seq![w])
        }
    } else {
        (result, cur.push(w))
    }
}

pub open spec fn chunk_run(ws: Seq<SpecSpan>) -> (Seq<SpecChunk>, Seq<SpecSpan>)
    decreases ws.len(),
{
    if ws.len() == 0 {
        (Seq::empty(), Seq::empty())
    } else {
        let prev = chunk_run(ws.drop_last());
        chunk_step(prev.0, prev.1, ws.last())
    }
}

/// The chunks of a line's words, after splitting them at spaces.
pub open spec fn chunks_of(ws: Seq<SpecSpan>) -> Seq<SpecChunk> {
    let run = chunk_run(resplit(ws));
    flush(run.0, run.1)
}

fn concat_exec(cur: &Vec<WordSpan>) -> (r: Vec<char>)
    ensures
        r@ == concat_text(spans_view(cur@)),
{
    let ghost cv = spans_view(cur@);
    let mut r: Vec<char> = Vec::new();
    let mut i: usize = 0;
    assert(cv.take(0) =~= Seq::<SpecSpan>::empty());
    while i < cur.len()
        invariant
            i <= cur.len(),
            cv == spans_view(cur@),
            r@ == concat_text(cv.take(i as int)),
        decreases cur.len() - i,
    {
        assert(cv.take(i + 1).drop_last() =~= cv.take(i as int));
        assert(cv.take(i + 1).last() == cur@[i as int]@);
        let t = string_chars(&cur[i].text);
        let ghost before = r@;
        let mut k: usize = 0;
        while k < t.len()
            invariant
                k <= t.len(),
                r@ == before + t@.take(k as int),
            decreases t.len() - k,
        {
            r.push(t[k]);
            assert(r@ =~= before + t@.take(k + 1));
            k += 1;
        }
        assert(t@.take(t.len() as int) =~= t@);
        i += 1;
    }
    assert(cv.take(cur.len() as int) =~= cv);
    r
}

fn single_word_exec(t: &Vec<char>) -> (r: bool)
    ensures
        r == single_word(t@),
{
    let tr = trim_chars(t);
    let mut i: usize = 0;
    while i < tr.len()
        invariant
            i <= tr.len(),
            tr@ == trim(t@),
            forall|j: int| 0 <= j < i ==> !is_ws(#[trigger] tr@[j]),
        decreases tr.len() - i,
    {
        if is_whitespace(tr[i]) {
            assert(is_ws(trim(t@)[i as int]));
            return false;
        }
        i += 1;
    }
    true
}

fn cjk_only_exec(t: &Vec<char>) -> (r: bool)
    ensures
        r == cjk_only(t@),
{
    if t.len() == 0 {
        return false;
    }
    let mut i: usize = 0;
    while i < t.len()
        invariant
            i <= t.len(),
            forall|j: int| 0 <= j < i ==> cjk_only_char(#[trigger] t@[j]),
        decreases t.len() - i,
    {
        let c = t[i];
        if !(('\u{4E00}' <= c && c <= '\u{9FFF}') || ('\u{3400}' <= c && c <= '\u{4DBF}') || ('\u{0800}' <= c
            && c <= '\u{9FFC}')) {
            assert(!cjk_only_char(t@[i as int]));
            return false;
        }
        i += 1;
    }
    true
}

fn flush_exec(result: &mut Vec<WordChunk>, cur: Vec<WordSpan>)
    ensures
        chunks_view(final(result)@) == flush(chunks_view(old(result)@), spans_view(cur@)),
{
    let ghost cv = spans_view(cur@);
    let ghost r0 = chunks_view(result@);
    if cur.len() == 1 {
        let mut cur = cur;
        let w = cur.remove(0);
        assert(w@ == cv[0]);
        result.push(WordChunk::Single(w));
        assert(chunks_view(result@) =~= r0.push(SpecChunk::Single(cv[0])));
    } else if cur.len() > 1 {
        result.push(WordChunk::Group(cur));
        assert(chunks_view(result@) =~= r0.push(SpecChunk::Group(cv)));
    }
}

/// Splits words at spaces and groups them into chunks (see [`chunk_step`]).
pub fn chunk_and_split_words(words: &Vec<WordSpan>) -> (r: Vec<WordChunk>)
    ensures
        chunks_view(r@) == chunks_of(spans_view(words@)),
{
    let re = resplit_words(words);
    let ghost rv = spans_view(re@);
    let mut result: Vec<WordChunk> = Vec::new();
    let mut cur: Vec<WordSpan> = Vec::new();
    let mut i: usize = 0;
    assert(rv.take(0) =~= Seq::<SpecSpan>::empty());
    assert(chunks_view(result@) =~= Seq::<SpecChunk>::empty());
    assert(spans_view(cur@) =~= Seq::<SpecSpan>::empty());
    while i < re.len()
        invariant
            i <= re.len(),
            rv == spans_view(re@),
            rv == resplit(spans_view(words@)),
            (chunks_view(result@), spans_view(cur@)) == chunk_run(rv.take(i as int)),
        decreases re.len() - i,
    {
        assert(rv.take(i + 1).drop_last() =~= rv.take(i as int));
        assert(rv.take(i + 1).last() == re@[i as int]@);
        let w = copy_span(&re[i]);
        let t = string_chars(&w.text);
        let tt = trim_chars(&t);
        let is_cjk = cjk_only_exec(&t);
        if t.len() > 0 && tt.len() == 0 {
            let mut taken: Vec<WordSpan> = Vec::new();
            std::mem::swap(&mut taken, &mut cur);
            flush_exec(&mut result, taken);
            let ghost wv = w@;
            let ghost before = chunks_view(result@);
            result.push(WordChunk::Single(w));
            assert(chunks_view(result@) =~= before.push(SpecChunk::Single(wv)));
            assert(spans_view(cur@) =~= Seq::<SpecSpan>::empty());
        } else {
            let mut joined = concat_exec(&cur);
            let ghost j0 = joined@;
            let mut k: usize = 0;
            while k < t.len()
                invariant
                    k <= t.len(),
                    joined@ == j0 + t@.take(k as int),
                decreases t.len() - k,
            {
                joined.push(t[k]);
                assert(joined@ =~= j0 + t@.take(k + 1));
                k += 1;
            }
            assert(t@.take(t.len() as int) =~= t@);
            if !single_word_exec(&joined) || is_cjk {
                let mut taken: Vec<WordSpan> = Vec::new();
            std::mem::swap(&mut taken, &mut cur);
                flush_exec(&mut result, taken);
                if is_cjk {
                    let ghost wv = w@;
                    let ghost before = chunks_view(result@);
                    result.push(WordChunk::Single(w));
                    assert(chunks_view(result@) =~= before.push(SpecChunk::Single(wv)));
                    assert(spans_view(cur@) =~= Seq::<SpecSpan>::empty());
                } else {
                    let ghost wv = w@;
                    cur.push(w);
                    assert(spans_view(cur@) =~= seq![wv]);
                }
            } else {
                let ghost wv = w@;
                let ghost before = spans_view(cur@);
                cur.push(w);
                assert(spans_view(cur@) =~= before.push(wv));
            }
        }
        i += 1;
    }
    assert(rv.take(re.len() as int) =~= rv);
    flush_exec(&mut result, cur);
    result
}

// ----------------------------------------------------------------------------
// Emphasis of chunks
// ----------------------------------------------------------------------------

pub open spec fn empty_span() -> SpecSpan {
    SpecSpan { text: Seq::empty(), start_ms: 0, end_ms: 0, roman_word: None, emphasize: false, is_last_word: false }
}

pub open spec fn min_start(ws: Seq<SpecSpan>) -> u64
    decreases ws.len(),
{
    if ws.len() <= 1 {
        if ws.len() == 1 { ws[0].start_ms } else { 0 }
    } else {
        let m = min_start(ws.drop_last());
        if ws.last().start_ms < m { ws.last().start_ms } else { m }
    }
}

pub open spec fn max_end(ws: Seq<SpecSpan>) -> u64
    decreases ws.len(),
{
    if ws.len() <= 1 {
        if ws.len() == 1 { ws[0].end_ms } else { 0 }
    } else {
        let m = max_end(ws.drop_last());
        if ws.last().end_ms > m { ws.last().end_ms } else { m }
    }
}

/// A group seen as one word: the joined text from the earliest start to the
/// latest end, last in its line if its last word is.
pub open spec fn merged(ws: Seq<SpecSpan>) -> SpecSpan {
    if ws.len() == 0 {
        empty_span()
    } else {
        SpecSpan {
            text: concat_text(ws),
            start_ms: min_start(ws),
            end_ms: max_end(ws),
            roman_word: None,
            emphasize: false,
            is_last_word: ws.last().is_last_word,
        }
    }
}

/// A chunk is emphasized when its word is; a group when one of its words is
/// or when the group as one word is.
pub open spec fn chunk_emphasized(c: SpecChunk) -> bool {
    match c {
        SpecChunk::Single(w) => emphasized(w),
        SpecChunk::Group(ws) => (exists|j: int| 0 <= j < ws.len() && emphasized(#[trigger] ws[j])) || emphasized(merged(ws)),
    }
}

pub open spec fn chunk_size(c: SpecChunk) -> nat {
    match c {
        SpecChunk::Single(_) => 1,
        SpecChunk::Group(ws) => ws.len(),
    }
}

pub open spec fn chunk_words(c: SpecChunk) -> Seq<SpecSpan> {
    match c {
        SpecChunk::Single(w) => seq![w],
        SpecChunk::Group(ws) => ws,
    }
}

fn merged_exec(ws: &Vec<WordSpan>) -> (r: WordSpan)
    ensures
        r@ == merged(spans_view(ws@)),
{
    let ghost wv = spans_view(ws@);
    if ws.len() == 0 {
        return WordSpan { text: String::new(), start_ms: 0, end_ms: 0, roman_word: None, emphasize: false, is_last_word: false };
    }
    let text = concat_exec(ws);
    let mut lo = ws[0].start_ms;
    let mut hi = ws[0].end_ms;
    let mut i: usize = 1;
    assert(wv.take(1) =~= seq![wv[0]]);
    while i < ws.len()
        invariant
            1 <= i <= ws.len(),
            wv == spans_view(ws@),
            lo == min_start(wv.take(i as int)),
            hi == max_end(wv.take(i as int)),
        decreases ws.len() - i,
    {
        assert(wv.take(i + 1).drop_last() =~= wv.take(i as int));
        assert(wv.take(i + 1).last() == ws@[i as int]@);
        if ws[i].start_ms < lo {
            lo = ws[i].start_ms;
        }
        if ws[i].end_ms > hi {
            hi = ws[i].end_ms;
        }
        i += 1;
    }
    assert(wv.take(ws.len() as int) =~= wv);
    let last = ws.len() - 1;
    WordSpan {
        text: string_of(&text),
        start_ms: lo,
        end_ms: hi,
        roman_word: None,
        emphasize: false,
        is_last_word: ws[last].is_last_word,
    }
}

impl WordChunk {
    /// Whether this chunk is emphasized (see [`chunk_emphasized`]).
    pub fn should_emphasize(&self) -> (r: bool)
        ensures
            r == chunk_emphasized(self@),
    {
        match self {
            WordChunk::Single(w) => w.should_emphasize(),
            WordChunk::Group(ws) => {
                let ghost wv = spans_view(ws@);
                let mut j: usize = 0;
                while j < ws.len()
                    invariant
                        j <= ws.len(),
                        wv == spans_view(ws@),
                        self@ == SpecChunk::Group(wv),
                        forall|k: int| 0 <= k < j ==> !emphasized(#[trigger] wv[k]),
                    decreases ws.len() - j,
                {
                    assert(wv[j as int] == ws@[j as int]@);
                    if ws[j].should_emphasize() {
                        assert(emphasized(wv[j as int]));
                        return true;
                    }
                    j += 1;
                }
                merged_exec(ws).should_emphasize()
            },
        }
    }

    /// The chunk as one word (see [`merged`]); a single word as it is.
    pub fn merged_word(&self) -> (r: WordSpan)
        ensures
            r@ == (match self@ {
                SpecChunk::Single(w) => w,
                SpecChunk::Group(ws) => merged(ws),
            }),
    {
        match self {
            WordChunk::Single(w) => copy_span(w),
            WordChunk::Group(ws) => merged_exec(ws),
        }
    }

    /// The chunk's words.
    pub fn words(&self) -> (r: Vec<&WordSpan>)
        ensures
            r@.len() == chunk_words(self@).len(),
            forall|k: int| 0 <= k < r@.len() ==> (#[trigger] r@[k])@ == chunk_words(self@)[k],
    {
        match self {
            WordChunk::Single(w) => {
                let mut r: Vec<&WordSpan> = Vec::new();
                r.push(w);
                r
            },
            WordChunk::Group(ws) => {
                let mut r: Vec<&WordSpan> = Vec::new();
                let mut i: usize = 0;
                while i < ws.len()
                    invariant
                        i <= ws.len(),
                        r@.len() == i,
                        forall|k: int| 0 <= k < i ==> (#[trigger] r@[k])@ == ws@[k]@,
                    decreases ws.len() - i,
                {
                    r.push(&ws[i]);
                    i += 1;
                }
                r
            },
        }
    }
}

/// The number of characters of the words' texts, summed.
pub open spec fn text_chars(ws: Seq<SpecSpan>) -> nat
    decreases ws.len(),
{
    if ws.len() == 0 {
        0
    } else {
        text_chars(ws.drop_last()) + ws.last().text.len()
    }
}

/// The number of characters of the chunk's words.
pub open spec fn chunk_char_count(c: SpecChunk) -> nat {
    match c {
        SpecChunk::Single(w) => w.text.len(),
        SpecChunk::Group(ws) => text_chars(ws),
    }
}

impl WordChunk {
    /// The number of characters of the chunk's words.
    pub fn char_count(&self) -> (r: usize)
        requires
            chunk_char_count(self@) <= usize::MAX,
        ensures
            r == chunk_char_count(self@),
    {
        match self {
            WordChunk::Single(w) => w.text.as_str().unicode_len(),
            WordChunk::Group(ws) => {
                let ghost wv = spans_view(ws@);
                let mut total: usize = 0;
                let mut i: usize = 0;
                while i < ws.len()
                    invariant
                        i <= ws.len(),
                        wv == spans_view(ws@),
                        text_chars(wv) <= usize::MAX,
                        total == text_chars(wv.take(i as int)),
                    decreases ws.len() - i,
                {
                    assert(wv.take(i + 1).drop_last() =~= wv.take(i as int));
                    proof {
                        lemma_text_chars_prefix(wv, i + 1);
                    }
                    total = total + ws[i].text.as_str().unicode_len();
                    i += 1;
                }
                assert(wv.take(ws.len() as int) =~= wv);
                total
            },
        }
    }
}

proof fn lemma_text_chars_prefix(ws: Seq<SpecSpan>, k: int)
    requires
        0 <= k <= ws.len(),
    ensures
        text_chars(ws.take(k)) <= text_chars(ws),
    decreases ws.len() - k,
{
    if k < ws.len() {
        lemma_text_chars_prefix(ws, k + 1);
        assert(ws.take(k + 1).drop_last() =~= ws.take(k));
    } else {
        assert(ws.take(k) =~= ws);
    }
}

/// The emphasis of each word position: every word of a chunk takes the chunk's emphasis.
pub open spec fn emphasis_flags(cs: Seq<SpecChunk>) -> Seq<bool>
    decreases cs.len(),
{
    if cs.len() == 0 {
        Seq::empty()
    } else {
        emphasis_flags(cs.drop_last()) + Seq::new(chunk_size(cs.last()), |k: int| chunk_emphasized(cs.last()))
    }
}

/// Marks the emphasis of the words from the chunks of their split form: word
/// `i` takes the emphasis of the `i`-th position of the chunks (positions
/// past the chunks' words are not emphasized).
pub fn process_words_with_chunking(words: &mut Vec<WordSpan>)
    ensures
        final(words).len() == old(words).len(),
        forall|i: int|
            0 <= i < old(words).len() ==> (#[trigger] final(words)@[i])@ == (SpecSpan {
                emphasize: if i < emphasis_flags(chunks_of(spans_view(old(words)@))).len() {
                    emphasis_flags(chunks_of(spans_view(old(words)@)))[i]
                } else {
                    false
                },
                ..old(words)@[i]@
            }),
{
    let chunks = chunk_and_split_words(words);
    let ghost cv = chunks_view(chunks@);
    let ghost flags = emphasis_flags(cv);
    let n = words.len();
    let mut marks: Vec<bool> = Vec::new();
    while marks.len() < n
        invariant
            marks.len() <= n,
            forall|j: int| 0 <= j < marks.len() ==> !(#[trigger] marks@[j]),
        decreases n - marks.len(),
    {
        marks.push(false);
    }
    let mut idx: usize = 0;
    let mut c: usize = 0;
    assert(cv.take(0) =~= Seq::<SpecChunk>::empty());
    while c < chunks.len()
        invariant
            c <= chunks.len(),
            cv == chunks_view(chunks@),
            marks.len() == n,
            idx <= n,
            idx == (if emphasis_flags(cv.take(c as int)).len() < n { emphasis_flags(cv.take(c as int)).len() } else { n as nat }),
            forall|j: int| 0 <= j < n ==> #[trigger] marks@[j] == (j < emphasis_flags(cv.take(c as int)).len() && emphasis_flags(cv.take(c as int))[j]),
        decreases chunks.len() - c,
    {
        let ghost prevf = emphasis_flags(cv.take(c as int));
        assert(cv.take(c + 1).drop_last() =~= cv.take(c as int));
        assert(cv.take(c + 1).last() == chunks@[c as int]@);
        let emp = chunks[c].should_emphasize();
        let size: usize = match &chunks[c] {
            WordChunk::Single(_) => 1,
            WordChunk::Group(g) => g.len(),
        };
        let ghost newf = emphasis_flags(cv.take(c + 1));
        assert(newf =~= prevf + Seq::new(size as nat, |k: int| emp));
        let mut k: usize = 0;
        while k < size
            invariant
                k <= size,
                marks.len() == n,
                idx <= n,
                idx == (if prevf.len() + k < n { prevf.len() + k } else { n as int }),
                newf == prevf + Seq::new(size as nat, |q: int| emp),
                forall|j: int| 0 <= j < n ==> #[trigger] marks@[j] == (j < prevf.len() + k && newf[j]),
                forall|j: int| 0 <= j < prevf.len() ==> newf[j] == prevf[j],
            decreases size - k,
        {
            if idx < n {
                marks.set(idx, emp);
            }
            if idx < n {
                idx += 1;
            }
            k += 1;
        }
        c += 1;
    }
    assert(cv.take(chunks.len() as int) =~= cv);
    let ghost w0 = words@;
    let mut i: usize = 0;
    while i < n
        invariant
            i <= n,
            n == words.len(),
            marks.len() == n,
            words@.len() == w0.len(),
            forall|j: int| 0 <= j < n ==> #[trigger] marks@[j] == (j < flags.len() && flags[j]),
            forall|j: int| 0 <= j < i ==> (#[trigger] words@[j])@ == (SpecSpan { emphasize: marks@[j], ..w0[j]@ }),
            forall|j: int| i <= j < n ==> #[trigger] words@[j] == w0[j],
        decreases n - i,
    {
        words[i].emphasize = marks[i];
        i += 1;
    }
}

} // verus!
