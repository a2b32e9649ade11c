//! Display-time normalization and timing smoothing of parsed lyrics
//! (`optimize_lyrics_lines`).
//!
//! Every stage is stated per line over the lines as they were before that
//! stage: each line depends only on itself and its neighbours. Ratios of
//! durations are computed exactly and rounded half up.

use vstd::prelude::*;

use crate::lyrics::timed::lemma_lines_view_push;
use crate::lyrics::types::{
    lines_view, normalize_lyric_text, normalized_text, words_view, LyricLineOwned,
    LyricWordOwned, SpecLine, SpecWord,
};
use crate::text::{is_blank, is_whitespace, is_ws, push_char, string_chars, trim};

verus! {

// ----------------------------------------------------------------------------
// Whitespace normalization
// ----------------------------------------------------------------------------

/// Every run of whitespace replaced by one space.
pub open spec fn collapse_ws(s: Seq<char>) -> Seq<char>
    decreases s.len(),
{
    if s.len() == 0 {
        s
    } else {
        let r = collapse_ws(s.drop_last());
        if is_ws(s.last()) {
            if s.len() > 1 && is_ws(s[s.len() - 2]) { r } else { r.push(' ') }
        } else {
            r.push(s.last())
        }
    }
}

pub open spec fn norm_word(w: SpecWord) -> SpecWord {
    SpecWord { word: collapse_ws(normalized_text(w.word)), ..w }
}

pub open spec fn norm_line(l: SpecLine) -> SpecLine {
    SpecLine {
        words: l.words.map_values(|w: SpecWord| norm_word(w)),
        translated_lyric: normalized_text(l.translated_lyric),
        roman_lyric: normalized_text(l.roman_lyric),
        ..l
    }
}

fn collapse_spaces(s: &String) -> (r: String)
    ensures
        r@ == collapse_ws(s@),
{
    let cs = string_chars(s);
    let mut out = String::new();
    let mut previous_was_whitespace = false;
    let mut i: usize = 0;
    while i < cs.len()
        invariant
            i <= cs.len(),
            out@ == collapse_ws(cs@.take(i as int)),
            previous_was_whitespace == (i > 0 && is_ws(cs@[i - 1])),
        decreases cs.len() - i,
    {
        assert(cs@.take(i + 1).drop_last() =~= cs@.take(i as int));
        let ch = cs[i];
        if is_whitespace(ch) {
            if !previous_was_whitespace {
                push_char(&mut out, ' ');
            }
            previous_was_whitespace = true;
        } else {
            push_char(&mut out, ch);
            previous_was_whitespace = false;
        }
        i += 1;
    }
    assert(cs@.take(cs.len() as int) =~= cs@);
    out
}

fn normalize_line(line: &LyricLineOwned) -> (r: LyricLineOwned)
    ensures
        r@ == norm_line(line@),
{
    let ghost l = line@;
    let mut words: Vec<LyricWordOwned> = Vec::new();
    let mut j: usize = 0;
    while j < line.words.len()
        invariant
            j <= line.words.len(),
            l == line@,
            words_view(words@) == l.words.take(j as int).map_values(|w: SpecWord| norm_word(w)),
        decreases line.words.len() - j,
    {
        let w = &line.words[j];
        assert(l.words[j as int] == w@);
        let source = normalize_lyric_text(w.word.as_str());
        let normalized = collapse_spaces(&source);
        let nw = LyricWordOwned {
            start_time: w.start_time,
            end_time: w.end_time,
            word: normalized,
            roman_word: crate::text::copy_string(&w.roman_word),
        };
        let ghost before = words@;
        words.push(nw);
        assert(words_view(words@) =~= words_view(before).push(nw@));
        assert(l.words.take(j + 1).map_values(|w: SpecWord| norm_word(w)) =~= l.words.take(
            j as int,
        ).map_values(|w: SpecWord| norm_word(w)).push(norm_word(l.words[j as int])));
        j += 1;
    }
    assert(l.words.take(line.words.len() as int) =~= l.words);
    let r = LyricLineOwned {
        words,
        translated_lyric: normalize_lyric_text(line.translated_lyric.as_str()),
        roman_lyric: normalize_lyric_text(line.roman_lyric.as_str()),
        is_bg: line.is_bg,
        is_duet: line.is_duet,
        start_time: line.start_time,
        end_time: line.end_time,
    };
    r
}

// ----------------------------------------------------------------------------
// Per-line timing
// ----------------------------------------------------------------------------

/// A lone untimed word takes the line's times; otherwise a line with words
/// takes its times from its first and last word.
pub open spec fn reset_line(l: SpecLine) -> SpecLine {
    if l.words.len() == 1 && l.words[0].start_time == 0 && l.words[0].end_time == 0 && (l.start_time
        != 0 || l.end_time != 0) {
        SpecLine {
            words: seq![SpecWord { start_time: l.start_time, end_time: l.end_time, ..l.words[0] }],
            ..l
        }
    } else if l.words.len() > 0 {
        SpecLine { start_time: l.words[0].start_time, end_time: l.words.last().end_time, ..l }
    } else {
        l
    }
}

fn reset_line_exec(line: LyricLineOwned) -> (r: LyricLineOwned)
    ensures
        r@ == reset_line(line@),
{
    let mut line = line;
    let ghost l = line@;
    let n = line.words.len();
    if n == 1 && line.words[0].start_time == 0 && line.words[0].end_time == 0 && (line.start_time != 0
        || line.end_time != 0) {
        assert(l.words[0] == line.words@[0]@);
        let mut w = line.words.pop().unwrap();
        w.start_time = line.start_time;
        w.end_time = line.end_time;
        line.words.push(w);
        assert(line@.words =~= seq![SpecWord { start_time: l.start_time, end_time: l.end_time, ..l.words[0] }]);
    } else if n > 0 {
        assert(l.words[0] == line.words@[0]@);
        assert(l.words.last() == line.words@[n - 1]@);
        line.start_time = line.words[0].start_time;
        line.end_time = line.words[n - 1].end_time;
    }
    line
}

// ----------------------------------------------------------------------------
// Stages over the whole list
// ----------------------------------------------------------------------------

/// Only the first of consecutive background lines stays a background line.
pub open spec fn demote_bg(s: Seq<SpecLine>) -> Seq<SpecLine> {
    Seq::new(s.len(), |i: int| SpecLine { is_bg: s[i].is_bg && !(i > 0 && s[i - 1].is_bg), ..s[i] })
}

/// Line `i` is a main line directly followed by a background line.
pub open spec fn paired(s: Seq<SpecLine>, i: int) -> bool {
    0 <= i && i + 1 < s.len() && !s[i].is_bg && s[i + 1].is_bg
}

/// Earliest start and latest end of the words with visible text in `ws`.
pub open spec fn visible_span(ws: Seq<SpecWord>) -> Option<(u64, u64)>
    decreases ws.len(),
{
    if ws.len() == 0 {
        None
    } else {
        let r = visible_span(ws.drop_last());
        let w = ws.last();
        if trim(w.word).len() == 0 {
            r
        } else {
            match r {
                Some((a, b)) => Some((
                    if w.start_time < a { w.start_time } else { a },
                    if w.end_time > b { w.end_time } else { b },
                )),
                None => Some((w.start_time, w.end_time)),
            }
        }
    }
}

pub open spec fn min3(a: u64, b: u64, c: u64) -> u64 {
    let m = if a <= b { a } else { b };
    if m <= c { m } else { c }
}

pub open spec fn max3(a: u64, b: u64, c: u64) -> u64 {
    let m = if a >= b { a } else { b };
    if m >= c { m } else { c }
}

/// The shared span of a main line and its background line, when their words
/// show any text: it covers the visible words and both lines.
pub open spec fn pair_span(a: SpecLine, b: SpecLine) -> Option<(u64, u64)> {
    match visible_span(a.words + b.words) {
        Some((s, e)) => Some((min3(s, a.start_time, b.start_time), max3(e, a.end_time, b.end_time))),
        None => None,
    }
}

pub open spec fn with_span(l: SpecLine, span: (u64, u64)) -> SpecLine {
    SpecLine { start_time: span.0, end_time: span.1, ..l }
}

/// A main line and the background line after it share one span.
pub open spec fn sync_pairs(s: Seq<SpecLine>) -> Seq<SpecLine> {
    Seq::new(
        s.len(),
        |k: int|
            if paired(s, k) && pair_span(s[k], s[k + 1]) is Some {
                with_span(s[k], pair_span(s[k], s[k + 1])->0)
            } else if paired(s, k - 1) && pair_span(s[k - 1], s[k]) is Some {
                with_span(s[k], pair_span(s[k - 1], s[k])->0)
            } else {
                s[k]
            },
    )
}

/// The first main line after `i`.
pub open spec fn next_main(s: Seq<SpecLine>, i: int) -> Option<int>
    decreases s.len() - i,
{
    if i + 1 >= s.len() {
        None
    } else if !s[i + 1].is_bg {
        Some(i + 1)
    } else {
        next_main(s, i + 1)
    }
}

pub open spec fn sat_sub(a: u64, b: u64) -> u64 {
    if a >= b { (a - b) as u64 } else { 0 }
}

/// A tenth of `d`, rounded half up.
pub open spec fn tenth(d: u64) -> nat {
    ((d + 5) / 10) as nat
}

/// Where main line `i` overlaps the next main line by no more than 100 ms or
/// a tenth of that line's duration, the start of that next line (its new end).
pub open spec fn trimmed_end(s: Seq<SpecLine>, i: int) -> Option<u64> {
    if 0 <= i < s.len() && !s[i].is_bg {
        match next_main(s, i) {
            Some(nm) => {
                let ns = s[nm].start_time;
                let overlap = sat_sub(s[i].end_time, ns);
                let dur = sat_sub(s[nm].end_time, ns);
                if overlap == 0 || (overlap > 100 && overlap > tenth(dur)) {
                    None
                } else {
                    Some(ns)
                }
            },
            None => None,
        }
    } else {
        None
    }
}

/// Unintentional overlaps removed: the main line (and the background line
/// right after it) end where the next main line starts.
pub open spec fn clean_overlaps(s: Seq<SpecLine>) -> Seq<SpecLine> {
    Seq::new(
        s.len(),
        |k: int|
            if trimmed_end(s, k) is Some {
                SpecLine { end_time: trimmed_end(s, k)->0, ..s[k] }
            } else if k > 0 && s[k].is_bg && trimmed_end(s, k - 1) is Some {
                SpecLine { end_time: trimmed_end(s, k - 1)->0, ..s[k] }
            } else {
                s[k]
            },
    )
}

/// The last main line before `i`.
pub open spec fn prev_main(s: Seq<SpecLine>, i: int) -> Option<int>
    decreases i,
{
    if i <= 0 {
        None
    } else if !s[i - 1].is_bg {
        Some(i - 1)
    } else {
        prev_main(s, i - 1)
    }
}

/// Three tenths of `d`, rounded half up.
pub open spec fn three_tenths(d: u64) -> nat {
    ((3 * d + 5) / 10) as nat
}

/// The new start of main line `i`: up to 600 ms earlier when it follows a gap
/// (not before the previous main line's end), else up to 400 ms earlier (not
/// before 30% into the previous main line), never later than it was.
pub open spec fn advanced_start(s: Seq<SpecLine>, i: int) -> u64 {
    let l = s[i];
    let (amount, boundary) = match prev_main(s, i) {
        Some(p) => if l.start_time >= s[p].end_time {
            (600u64, s[p].end_time as int)
        } else {
            (400u64, s[p].start_time + three_tenths(sat_sub(s[p].end_time, s[p].start_time)))
        },
        None => (600u64, 0int),
    };
    let target = sat_sub(l.start_time, amount);
    let new_start = if boundary >= target { boundary } else { target as int };
    if new_start < l.start_time { new_start as u64 } else { l.start_time }
}

/// Main lines start a little earlier, and a background line follows its main line.
pub open spec fn advance_starts(s: Seq<SpecLine>) -> Seq<SpecLine> {
    Seq::new(
        s.len(),
        |k: int|
            if !s[k].is_bg {
                SpecLine { start_time: advanced_start(s, k), ..s[k] }
            } else if k > 0 && !s[k - 1].is_bg {
                SpecLine { start_time: advanced_start(s, k - 1), ..s[k] }
            } else {
                s[k]
            },
    )
}

/// What `optimize_lyrics_lines` makes of `lines`.
pub open spec fn optimized(lines: Seq<SpecLine>) -> Seq<SpecLine> {
    advance_starts(
        clean_overlaps(
            sync_pairs(demote_bg(lines.map_values(|l: SpecLine| reset_line(norm_line(l))))),
        ),
    )
}

fn demote_bg_exec(lines: Vec<LyricLineOwned>) -> (r: Vec<LyricLineOwned>)
    ensures
        lines_view(r@) == demote_bg(lines_view(lines@)),
{
    let ghost lv = lines_view(lines@);
    let mut flags: Vec<bool> = Vec::new();
    let mut k: usize = 0;
    while k < lines.len()
        invariant
            k <= lines.len(),
            lv == lines_view(lines@),
            flags@.len() == k,
            forall|j: int| 0 <= j < k ==> #[trigger] flags@[j] == (lv[j].is_bg && !(j > 0 && lv[j - 1].is_bg)),
        decreases lines.len() - k,
    {
        assert(lv[k as int] == lines@[k as int]@);
        if k > 0 {
            assert(lv[k - 1] == lines@[k - 1]@);
        }
        flags.push(lines[k].is_bg && !(k > 0 && lines[k - 1].is_bg));
        k += 1;
    }
    let mut src = lines;
    let n = src.len();
    let ghost target = demote_bg(lv);
    let mut out: Vec<LyricLineOwned> = Vec::new();
    let mut i: usize = 0;
    assert(lv.skip(0) =~= lv);
    while i < n
        invariant
            i <= n,
            n == lv.len(),
            flags@.len() == n,
            forall|j: int| 0 <= j < n ==> #[trigger] flags@[j] == (lv[j].is_bg && !(j > 0 && lv[j - 1].is_bg)),
            lines_view(src@) == lv.skip(i as int),
            src.len() == n - i,
            target == demote_bg(lv),
            lines_view(out@) == target.take(i as int),
        decreases n - i,
    {
        let ghost before = src@;
        let mut x = src.remove(0);
        proof {
            crate::lyrics::types::lemma_lines_view_remove_first(before);
        }
        assert(lines_view(src@) =~= lv.skip(i + 1));
        x.is_bg = flags[i];
        proof {
            lemma_lines_view_push(out@, x);
        }
        out.push(x);
        assert(target.take(i + 1) =~= target.take(i as int).push(target[i as int]));
        i += 1;
    }
    assert(target.take(n as int) =~= target);
    out
}

fn visible_span_exec(a: &Vec<LyricWordOwned>, b: &Vec<LyricWordOwned>) -> (r: Option<(u64, u64)>)
    ensures
        r == visible_span(words_view(a@) + words_view(b@)),
{
    let mut all = crate::lyrics::types::copy_words(a);
    let mut more = crate::lyrics::types::copy_words(b);
    let ghost va = words_view(all@);
    let ghost vb = words_view(more@);
    all.append(&mut more);
    let ghost ws = words_view(all@);
    assert(ws =~= va + vb);
    let mut r: Option<(u64, u64)> = None;
    let mut i: usize = 0;
    while i < all.len()
        invariant
            i <= all.len(),
            ws == words_view(all@),
            r == visible_span(ws.take(i as int)),
        decreases all.len() - i,
    {
        let w = &all[i];
        assert(ws[i as int] == w@);
        assert(ws.take(i + 1).drop_last() =~= ws.take(i as int));
        let text = string_chars(&w.word);
        if !is_blank(&text) {
            r = match r {
                Some((s, e)) => Some((
                    if w.start_time < s { w.start_time } else { s },
                    if w.end_time > e { w.end_time } else { e },
                )),
                None => Some((w.start_time, w.end_time)),
            };
        }
        i += 1;
    }
    assert(ws.take(ws.len() as int) =~= ws);
    r
}

fn pair_span_exec(a: &LyricLineOwned, b: &LyricLineOwned) -> (r: Option<(u64, u64)>)
    ensures
        r == pair_span(a@, b@),
{
    match visible_span_exec(&a.words, &b.words) {
        Some((s, e)) => {
            let m = if s <= a.start_time { s } else { a.start_time };
            let m = if m <= b.start_time { m } else { b.start_time };
            let x = if e >= a.end_time { e } else { a.end_time };
            let x = if x >= b.end_time { x } else { b.end_time };
            Some((m, x))
        },
        None => None,
    }
}

fn sync_exec(lines: Vec<LyricLineOwned>) -> (r: Vec<LyricLineOwned>)
    ensures
        lines_view(r@) == sync_pairs(lines_view(lines@)),
{
    let ghost lv = lines_view(lines@);
    let n = lines.len();
    let mut spans: Vec<Option<(u64, u64)>> = Vec::new();
    let mut k: usize = 0;
    while k < n
        invariant
            k <= n,
            n == lines.len(),
            lv == lines_view(lines@),
            spans@.len() == k,
            forall|j: int|
                0 <= j < k ==> #[trigger] spans@[j] == (if paired(lv, j) && pair_span(lv[j], lv[j + 1]) is Some {
                    pair_span(lv[j], lv[j + 1])
                } else if paired(lv, j - 1) && pair_span(lv[j - 1], lv[j]) is Some {
                    pair_span(lv[j - 1], lv[j])
                } else {
                    None
                }),
        decreases n - k,
    {
        assert(lv[k as int] == lines@[k as int]@);
        if k + 1 < n {
            assert(lv[k + 1] == lines@[k + 1]@);
        }
        if k > 0 {
            assert(lv[k - 1] == lines@[k - 1]@);
        }
        let mut sp: Option<(u64, u64)> = None;
        if k + 1 < n && !lines[k].is_bg && lines[k + 1].is_bg {
            sp = pair_span_exec(&lines[k], &lines[k + 1]);
        }
        if sp.is_none() && k > 0 && !lines[k - 1].is_bg && lines[k].is_bg {
            sp = pair_span_exec(&lines[k - 1], &lines[k]);
        }
        spans.push(sp);
        k += 1;
    }
    let ghost target = sync_pairs(lv);
    let mut src = lines;
    let mut out: Vec<LyricLineOwned> = Vec::new();
    let mut i: usize = 0;
    assert(lv.skip(0) =~= lv);
    while i < n
        invariant
            i <= n,
            n == lv.len(),
            spans@.len() == n,
            forall|j: int|
                0 <= j < n ==> #[trigger] spans@[j] == (if paired(lv, j) && pair_span(lv[j], lv[j + 1]) is Some {
                    pair_span(lv[j], lv[j + 1])
                } else if paired(lv, j - 1) && pair_span(lv[j - 1], lv[j]) is Some {
                    pair_span(lv[j - 1], lv[j])
                } else {
                    None
                }),
            lines_view(src@) == lv.skip(i as int),
            src.len() == n - i,
            target == sync_pairs(lv),
            lines_view(out@) == target.take(i as int),
        decreases n - i,
    {
        let ghost before = src@;
        let mut x = src.remove(0);
        proof {
            crate::lyrics::types::lemma_lines_view_remove_first(before);
        }
        assert(lines_view(src@) =~= lv.skip(i + 1));
        match spans[i] {
            Some((s, e)) => {
                x.start_time = s;
                x.end_time = e;
            },
            None => {},
        }
        assert(x@ == target[i as int]);
        proof {
            lemma_lines_view_push(out@, x);
        }
        out.push(x);
        assert(target.take(i + 1) =~= target.take(i as int).push(target[i as int]));
        i += 1;
    }
    assert(target.take(n as int) =~= target);
    out
}

fn next_main_exec(lines: &Vec<LyricLineOwned>, i: usize) -> (r: Option<usize>)
    requires
        i < lines.len(),
    ensures
        match r {
            Some(j) => next_main(lines_view(lines@), i as int) == Some(j as int) && i < j < lines.len(),
            None => next_main(lines_view(lines@), i as int) is None,
        },
{
    let ghost lv = lines_view(lines@);
    let mut j = i + 1;
    while j < lines.len() && lines[j].is_bg
        invariant
            i < j <= lines.len(),
            lv == lines_view(lines@),
            next_main(lv, i as int) == next_main(lv, j - 1),
        decreases lines.len() - j,
    {
        assert(lv[j as int] == lines@[j as int]@);
        j += 1;
    }
    if j < lines.len() {
        assert(lv[j as int] == lines@[j as int]@);
        Some(j)
    } else {
        None
    }
}

fn trimmed_end_exec(lines: &Vec<LyricLineOwned>, i: usize) -> (r: Option<u64>)
    requires
        i < lines.len(),
    ensures
        r == trimmed_end(lines_view(lines@), i as int),
{
    let ghost lv = lines_view(lines@);
    assert(lv[i as int] == lines@[i as int]@);
    if lines[i].is_bg {
        return None;
    }
    match next_main_exec(lines, i) {
        Some(nm) => {
            assert(lv[nm as int] == lines@[nm as int]@);
            let ns = lines[nm].start_time;
            let overlap = lines[i].end_time.saturating_sub(ns);
            let dur = lines[nm].end_time.saturating_sub(ns);
            let threshold = dur / 10 + (dur % 10 + 5) / 10;
            assert(threshold == tenth(dur));
            if overlap == 0 || (overlap > 100 && overlap > threshold) {
                None
            } else {
                Some(ns)
            }
        },
        None => None,
    }
}

fn clean_exec(lines: Vec<LyricLineOwned>) -> (r: Vec<LyricLineOwned>)
    ensures
        lines_view(r@) == clean_overlaps(lines_view(lines@)),
{
    let ghost lv = lines_view(lines@);
    let n = lines.len();
    let mut ends: Vec<Option<u64>> = Vec::new();
    let mut k: usize = 0;
    while k < n
        invariant
            k <= n,
            n == lines.len(),
            lv == lines_view(lines@),
            ends@.len() == k,
            forall|j: int|
                0 <= j < k ==> #[trigger] ends@[j] == (if trimmed_end(lv, j) is Some {
                    trimmed_end(lv, j)
                } else if j > 0 && lv[j].is_bg && trimmed_end(lv, j - 1) is Some {
                    trimmed_end(lv, j - 1)
                } else {
                    None
                }),
        decreases n - k,
    {
        assert(lv[k as int] == lines@[k as int]@);
        let mut e = trimmed_end_exec(&lines, k);
        if e.is_none() && k > 0 && lines[k].is_bg {
            e = trimmed_end_exec(&lines, k - 1);
        }
        ends.push(e);
        k += 1;
    }
    let ghost target = clean_overlaps(lv);
    let mut src = lines;
    let mut out: Vec<LyricLineOwned> = Vec::new();
    let mut i: usize = 0;
    assert(lv.skip(0) =~= lv);
    while i < n
        invariant
            i <= n,
            n == lv.len(),
            ends@.len() == n,
            forall|j: int|
                0 <= j < n ==> #[trigger] ends@[j] == (if trimmed_end(lv, j) is Some {
                    trimmed_end(lv, j)
                } else if j > 0 && lv[j].is_bg && trimmed_end(lv, j - 1) is Some {
                    trimmed_end(lv, j - 1)
                } else {
                    None
                }),
            lines_view(src@) == lv.skip(i as int),
            src.len() == n - i,
            target == clean_overlaps(lv),
            lines_view(out@) == target.take(i as int),
        decreases n - i,
    {
        let ghost before = src@;
        let mut x = src.remove(0);
        proof {
            crate::lyrics::types::lemma_lines_view_remove_first(before);
        }
        assert(lines_view(src@) =~= lv.skip(i + 1));
        match ends[i] {
            Some(e) => {
                x.end_time = e;
            },
            None => {},
        }
        assert(x@ == target[i as int]);
        proof {
            lemma_lines_view_push(out@, x);
        }
        out.push(x);
        assert(target.take(i + 1) =~= target.take(i as int).push(target[i as int]));
        i += 1;
    }
    assert(target.take(n as int) =~= target);
    out
}

fn prev_main_exec(lines: &Vec<LyricLineOwned>, i: usize) -> (r: Option<usize>)
    requires
        i <= lines.len(),
    ensures
        match r {
            Some(j) => prev_main(lines_view(lines@), i as int) == Some(j as int) && j < i,
            None => prev_main(lines_view(lines@), i as int) is None,
        },
{
    let ghost lv = lines_view(lines@);
    let mut j = i;
    while j > 0 && lines[j - 1].is_bg
        invariant
            j <= i <= lines.len(),
            lv == lines_view(lines@),
            prev_main(lv, i as int) == prev_main(lv, j as int),
        decreases j,
    {
        assert(lv[j - 1] == lines@[j - 1]@);
        j -= 1;
    }
    if j > 0 {
        assert(lv[j - 1] == lines@[j - 1]@);
        Some(j - 1)
    } else {
        None
    }
}

fn advanced_start_exec(lines: &Vec<LyricLineOwned>, i: usize) -> (r: u64)
    requires
        i < lines.len(),
    ensures
        r == advanced_start(lines_view(lines@), i as int),
{
    let ghost lv = lines_view(lines@);
    assert(lv[i as int] == lines@[i as int]@);
    let start = lines[i].start_time;
    let (amount, boundary): (u64, u64) = match prev_main_exec(lines, i) {
        Some(p) => {
            assert(lv[p as int] == lines@[p as int]@);
            let pe = lines[p].end_time;
            let ps = lines[p].start_time;
            if start >= pe {
                (600, pe)
            } else {
                let d = pe.saturating_sub(ps);
                let part = d / 10 * 3 + (d % 10 * 3 + 5) / 10;
                assert(part == three_tenths(d)) by {
                    assert(3 * d + 5 == 30 * (d / 10) + 3 * (d % 10) + 5);
                    assert((3 * d + 5) / 10 == 3 * (d / 10) + (3 * (d % 10) + 5) / 10) by (nonlinear_arith)
                        requires
                            3 * d + 5 == 30 * (d / 10) + 3 * (d % 10) + 5,
                            0 <= d % 10 < 10,
                    ;
                }
                assert(part <= d) by (nonlinear_arith)
                    requires
                        part == (3 * d + 5) / 10,
                ;
                (400, ps + part)
            }
        },
        None => (600, 0),
    };
    let target = start.saturating_sub(amount);
    let new_start = if boundary >= target { boundary } else { target };
    if new_start < start { new_start } else { start }
}

fn advance_exec(lines: Vec<LyricLineOwned>) -> (r: Vec<LyricLineOwned>)
    ensures
        lines_view(r@) == advance_starts(lines_view(lines@)),
{
    let ghost lv = lines_view(lines@);
    let n = lines.len();
    let mut starts: Vec<Option<u64>> = Vec::new();
    let mut k: usize = 0;
    while k < n
        invariant
            k <= n,
            n == lines.len(),
            lv == lines_view(lines@),
            starts@.len() == k,
            forall|j: int|
                0 <= j < k ==> #[trigger] starts@[j] == (if !lv[j].is_bg {
                    Some(advanced_start(lv, j))
                } else if j > 0 && !lv[j - 1].is_bg {
                    Some(advanced_start(lv, j - 1))
                } else {
                    None
                }),
        decreases n - k,
    {
        assert(lv[k as int] == lines@[k as int]@);
        if k > 0 {
            assert(lv[k - 1] == lines@[k - 1]@);
        }
        let st = if !lines[k].is_bg {
            Some(advanced_start_exec(&lines, k))
        } else if k > 0 && !lines[k - 1].is_bg {
            Some(advanced_start_exec(&lines, k - 1))
        } else {
            None
        };
        starts.push(st);
        k += 1;
    }
    let ghost target = advance_starts(lv);
    let mut src = lines;
    let mut out: Vec<LyricLineOwned> = Vec::new();
    let mut i: usize = 0;
    assert(lv.skip(0) =~= lv);
    while i < n
        invariant
            i <= n,
            n == lv.len(),
            starts@.len() == n,
            forall|j: int|
                0 <= j < n ==> #[trigger] starts@[j] == (if !lv[j].is_bg {
                    Some(advanced_start(lv, j))
                } else if j > 0 && !lv[j - 1].is_bg {
                    Some(advanced_start(lv, j - 1))
                } else {
                    None
                }),
            lines_view(src@) == lv.skip(i as int),
            src.len() == n - i,
            target == advance_starts(lv),
            lines_view(out@) == target.take(i as int),
        decreases n - i,
    {
        let ghost before = src@;
        let mut x = src.remove(0);
        proof {
            crate::lyrics::types::lemma_lines_view_remove_first(before);
        }
        assert(lines_view(src@) =~= lv.skip(i + 1));
        match starts[i] {
            Some(s) => {
                x.start_time = s;
            },
            None => {},
        }
        assert(x@ == target[i as int]);
        proof {
            lemma_lines_view_push(out@, x);
        }
        out.push(x);
        assert(target.take(i + 1) =~= target.take(i as int).push(target[i as int]));
        i += 1;
    }
    assert(target.take(n as int) =~= target);
    out
}

fn first_stage(lines: &Vec<LyricLineOwned>) -> (r: Vec<LyricLineOwned>)
    ensures
        lines_view(r@) == lines_view(lines@).map_values(|l: SpecLine| reset_line(norm_line(l))),
{
    let ghost lv = lines_view(lines@);
    let ghost stage1 = lv.map_values(|l: SpecLine| reset_line(norm_line(l)));
    let mut first: Vec<LyricLineOwned> = Vec::new();
    let mut i: usize = 0;
    while i < lines.len()
        invariant
            i <= lines.len(),
            lv == lines_view(lines@),
            stage1 == lv.map_values(|l: SpecLine| reset_line(norm_line(l))),
            lines_view(first@) == stage1.take(i as int),
        decreases lines.len() - i,
    {
        assert(lv[i as int] == lines@[i as int]@);
        let x = reset_line_exec(normalize_line(&lines[i]));
        assert(x@ == stage1[i as int]);
        proof {
            lemma_lines_view_push(first@, x);
        }
        first.push(x);
        assert(stage1.take(i + 1) =~= stage1.take(i as int).push(stage1[i as int]));
        i += 1;
    }
    assert(stage1.take(lines.len() as int) =~= stage1);
    first
}

/// Resetting a line's times from its words: a line with words spans them,
/// from its first word's start to its last word's end, words unchanged; the
/// exception is a lone untimed word in a timed line, which takes the line's
/// times. A line without words keeps its times.
pub proof fn lemma_reset_line_spans_words(l: SpecLine)
    ensures
        ({
            let lone_untimed = l.words.len() == 1 && l.words[0].start_time == 0 && l.words[0].end_time == 0 && (
            l.start_time != 0 || l.end_time != 0);
            let r = reset_line(l);
            &&& l.words.len() > 0 && !lone_untimed ==> r.start_time == l.words[0].start_time && r.end_time
                == l.words[l.words.len() - 1].end_time && r.words == l.words
            &&& lone_untimed ==> r.start_time == l.start_time && r.end_time == l.end_time && r.words.len() == 1
                && r.words[0].start_time == l.start_time && r.words[0].end_time == l.end_time && r.words[0].word
                == l.words[0].word
            &&& l.words.len() == 0 ==> r == l
        }),
{
}

/// A lone line with words keeps its last word's end as its own end through
/// the whole optimization, and its words keep their times; its start moves
/// no later than its first word's start.
pub proof fn lemma_optimized_lone_line_ends_with_last_word(l: SpecLine)
    requires
        l.words.len() > 0,
        !(l.words.len() == 1 && l.words[0].start_time == 0 && l.words[0].end_time == 0 && (l.start_time != 0
            || l.end_time != 0)),
    ensures
        optimized(seq![l]).len() == 1,
        optimized(seq![l])[0].end_time == l.words[l.words.len() - 1].end_time,
        optimized(seq![l])[0].start_time <= l.words[0].start_time,
        optimized(seq![l])[0].words.len() == l.words.len(),
        forall|j: int|
            0 <= j < l.words.len() ==> (#[trigger] optimized(seq![l])[0].words[j]).start_time == l.words[j].start_time
                && optimized(seq![l])[0].words[j].end_time == l.words[j].end_time,
{
    let s = seq![l];
    let n0 = s.map_values(|x: SpecLine| reset_line(norm_line(x)));
    let nl = norm_line(l);
    assert(nl.words.len() == l.words.len());
    assert(nl.words[0] == norm_word(l.words[0]));
    assert(nl.words[l.words.len() - 1] == norm_word(l.words[l.words.len() - 1]));
    assert(n0[0] == reset_line(nl));
    let n1 = demote_bg(n0);
    let n2 = sync_pairs(n1);
    assert(!paired(n1, 0) && !paired(n1, -1));
    assert(n2[0] == n1[0]);
    let n3 = clean_overlaps(n2);
    assert(next_main(n2, 0) is None);
    assert(trimmed_end(n2, 0) is None);
    assert(n3[0] == n2[0]);
    let o = advance_starts(n3);
    assert(o == optimized(s));
    assert forall|j: int| 0 <= j < l.words.len() implies (#[trigger] o[0].words[j]).start_time == l.words[j].start_time
        && o[0].words[j].end_time == l.words[j].end_time by {
        assert(nl.words[j] == norm_word(l.words[j]));
    }
}

/// Normalizes texts, resets line times from words, demotes consecutive
/// background lines, syncs main and background lines, removes unintentional
/// overlaps and advances start times.
pub fn optimize_lyrics_lines(lines: &mut Vec<LyricLineOwned>)
    ensures
        lines_view(final(lines)@) == optimized(lines_view(old(lines)@)),
{
    let first = first_stage(lines);
    let second = demote_bg_exec(first);
    let third = sync_exec(second);
    let fourth = clean_exec(third);
    let fifth = advance_exec(fourth);
    *lines = fifth;
}

} // verus!
