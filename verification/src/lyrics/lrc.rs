//! Standard LRC format: `[mm:ss.xx]text` with line-level synchronization.
//!
//! Timestamps are read with exact decimal arithmetic: every component is a
//! decimal integer (an optional `+` then digits), fractions are rounded half up
//! to the millisecond, and results are capped at `MAX_LRC_TIMESTAMP`.

use vstd::prelude::*;

use crate::lyrics::timed::lemma_lines_view_push;
use crate::lyrics::types::{
    lemma_lines_view_remove_first, lemma_words_view_remove_first, lines_view, plain_word, process_lyrics, processed,
    sort_lines, stable_sort, lemma_stable_sort_sorts, line_key, clamp_line, clamp_word, fill_end, LyricLineOwned, LyricWordOwned, SpecLine, SpecWord,
    MAX_LRC_TIMESTAMP, words_view,
};
use crate::text::{
    all_ascii_digits, all_digits, chars_of, contains_char, dec_pad, digit_value, digits_sat,
    digits_value, find, find_char, has_char, is_alphabetic, is_digit, lemma_find, lines_chars,
    lines_of, is_whitespace, is_ws, push_char, push_chars, push_dec_pad, sat64, sat_mul_add, sat_usize, split,
    split_chars, string_chars, string_is_empty, string_of, subvec, trim, trim_chars, unicode_alphabetic, utf8_len,
    lemma_trim_idempotent,
    utf8_prefix_len, views,
};

verus! {

// ----------------------------------------------------------------------------
// Timestamps
// ----------------------------------------------------------------------------

/// A time component: an optional `+` followed by one or more ASCII digits.
pub open spec fn comp_value(p: Seq<char>) -> Option<nat> {
    let d = if p.len() > 0 && p[0] == '+' { p.drop_first() } else { p };
    if d.len() > 0 && all_digits(d) {
        Some(digits_value(d))
    } else {
        None
    }
}

/// A fraction of a second: one or more ASCII digits.
pub open spec fn frac_ok(p: Seq<char>) -> bool {
    p.len() > 0 && all_digits(p)
}

/// Milliseconds of the fraction `0.p`, rounded half up: the first three digits
/// (padded with zeros), plus one when a fourth digit is at least 5.
pub open spec fn frac_ms(p: Seq<char>) -> nat {
    if p.len() == 1 {
        digits_value(p) * 100
    } else if p.len() == 2 {
        digits_value(p) * 10
    } else if p.len() == 3 {
        digits_value(p)
    } else {
        digits_value(p.take(3)) + if digit_value(p[3]) >= 5 { 1nat } else { 0nat }
    }
}

pub open spec fn all_comps(parts: Seq<Seq<char>>) -> bool {
    forall|i: int| 0 <= i < parts.len() ==> (#[trigger] comp_value(parts[i])) is Some
}

/// Seconds written as `a:b:...:z`, each component worth sixty of the next.
pub open spec fn fold60(parts: Seq<Seq<char>>) -> nat
    decreases parts.len(),
{
    if parts.len() == 0 {
        0
    } else {
        fold60(parts.drop_last()) * 60 + comp_value(parts.last())->0
    }
}

/// Milliseconds written by the text of an LRC timestamp: `a:...:z[.fff]`, or
/// `mm:ss:ff` where the third component is a fraction.
pub open spec fn time_text_ms(t: Seq<char>) -> Option<nat> {
    let dot = find(t, '.');
    let whole = match dot {
        Some(i) => t.take(i),
        None => t,
    };
    let parts = split(whole, ':');
    if dot is None && parts.len() == 3 {
        if comp_value(parts[0]) is Some && comp_value(parts[1]) is Some && frac_ok(parts[2]) {
            Some((comp_value(parts[0])->0 * 60 + comp_value(parts[1])->0) * 1000 + frac_ms(parts[2]))
        } else {
            None
        }
    } else if all_comps(parts) {
        match dot {
            Some(i) => if frac_ok(t.skip(i + 1)) {
                Some(fold60(parts) * 1000 + frac_ms(t.skip(i + 1)))
            } else {
                None
            },
            None => Some(fold60(parts) * 1000),
        }
    } else {
        None
    }
}

pub open spec fn cap_time(ms: nat) -> u64 {
    if ms <= MAX_LRC_TIMESTAMP { ms as u64 } else { MAX_LRC_TIMESTAMP }
}

/// The timestamp (in milliseconds, capped) that the text `t` of `[t]` denotes.
pub open spec fn time_text(t: Seq<char>) -> Option<u64> {
    match time_text_ms(t) {
        Some(ms) => Some(cap_time(ms)),
        None => None,
    }
}

fn comp_exec(p: &Vec<char>) -> (r: Option<u64>)
    ensures
        match comp_value(p@) {
            Some(v) => r == Some(sat64(v)),
            None => r is None,
        },
{
    let d = if p.len() > 0 && p[0] == '+' {
        subvec(p, 1, p.len())
    } else {
        subvec(p, 0, p.len())
    };
    assert(d@ =~= (if p@.len() > 0 && p@[0] == '+' { p@.drop_first() } else { p@ }));
    if d.len() == 0 || !all_ascii_digits(&d) {
        return None;
    }
    Some(digits_sat(&d))
}

fn frac_exec(p: &Vec<char>) -> (r: Option<u64>)
    ensures
        frac_ok(p@) ==> r == Some(frac_ms(p@) as u64) && frac_ms(p@) <= 1000,
        !frac_ok(p@) ==> r is None,
{
    if p.len() == 0 || !all_ascii_digits(p) {
        return None;
    }
    assert(is_digit(p@[0]));
    let d0 = (p[0] as u32 - '0' as u32) as u64;
    assert(p@.take(1).drop_last() =~= Seq::<char>::empty());
    assert(digits_value(Seq::<char>::empty()) == 0);
    assert(p@.take(1).last() == p@[0]);
    assert(digits_value(p@.take(1)) == d0);
    if p.len() == 1 {
        assert(p@.take(1) =~= p@);
        return Some(d0 * 100);
    }
    assert(is_digit(p@[1]));
    let d1 = (p[1] as u32 - '0' as u32) as u64;
    assert(p@.take(2).drop_last() =~= p@.take(1));
    assert(digits_value(p@.take(2)) == d0 * 10 + d1);
    if p.len() == 2 {
        assert(p@.take(2) =~= p@);
        return Some((d0 * 10 + d1) * 10);
    }
    assert(is_digit(p@[2]));
    let d2 = (p[2] as u32 - '0' as u32) as u64;
    assert(p@.take(3).drop_last() =~= p@.take(2));
    assert(digits_value(p@.take(3)) == (d0 * 10 + d1) * 10 + d2);
    let base = (d0 * 10 + d1) * 10 + d2;
    if p.len() == 3 {
        assert(p@.take(3) =~= p@);
        return Some(base);
    }
    assert(is_digit(p@[3]));
    let d3 = (p[3] as u32 - '0' as u32) as u64;
    if d3 >= 5 {
        Some(base + 1)
    } else {
        Some(base)
    }
}

pub fn time_text_exec(t: &Vec<char>) -> (r: Option<u64>)
    ensures
        r == time_text(t@),
{
    let dot = find_char(t, '.');
    proof {
        lemma_find(t@, '.');
    }
    let whole = match dot {
        Some(i) => subvec(t, 0, i),
        None => subvec(t, 0, t.len()),
    };
    assert(whole@ =~= (match find(t@, '.') {
        Some(i) => t@.take(i),
        None => t@,
    }));
    let parts = split_chars(&whole, ':');
    let ghost pv = views(parts@);
    assert(pv.len() == parts@.len());
    let ms: u64;
    let ghost exact: nat;
    if dot.is_none() && parts.len() == 3 {
        assert(pv[0] == parts@[0]@ && pv[1] == parts@[1]@ && pv[2] == parts@[2]@);
        let m = match comp_exec(&parts[0]) {
            Some(m) => m,
            None => return None,
        };
        let s = match comp_exec(&parts[1]) {
            Some(s) => s,
            None => return None,
        };
        let f = match frac_exec(&parts[2]) {
            Some(f) => f,
            None => return None,
        };
        let ghost mv = comp_value(pv[0])->0;
        let ghost sv = comp_value(pv[1])->0;
        let secs = sat_mul_add(m, 60, s, Ghost(mv), Ghost(sv));
        proof {
            exact = (mv * 60 + sv) * 1000 + frac_ms(pv[2]);
        }
        ms = sat_mul_add(secs, 1000, f, Ghost(mv * 60 + sv), Ghost(frac_ms(pv[2])));
    } else {
        let mut acc: u64 = 0;
        let mut i: usize = 0;
        assert(!all_comps(pv) ==> time_text_ms(t@) is None);
        while i < parts.len()
            invariant
                i <= parts.len(),
                pv == views(parts@),
                !all_comps(pv) ==> time_text_ms(t@) is None,
                all_comps(pv.take(i as int)),
                acc == sat64(fold60(pv.take(i as int))),
            decreases parts.len() - i,
        {
            assert(pv[i as int] == parts@[i as int]@);
            assert(pv.take(i + 1).drop_last() =~= pv.take(i as int));
            let v = match comp_exec(&parts[i]) {
                Some(v) => v,
                None => {
                    assert(!all_comps(pv)) by {
                        assert(comp_value(pv[i as int]) is None);
                    }
                    return None;
                },
            };
            acc = sat_mul_add(acc, 60, v, Ghost(fold60(pv.take(i as int))), Ghost(comp_value(pv[i as int])->0));
            assert(all_comps(pv.take(i + 1))) by {
                assert forall|j: int| 0 <= j < i + 1 implies (#[trigger] comp_value(pv.take(i + 1)[j])) is Some by {
                    if j < i {
                        assert(pv.take(i + 1)[j] == pv.take(i as int)[j]);
                    }
                }
            }
            i += 1;
        }
        assert(pv.take(parts.len() as int) =~= pv);
        match dot {
            Some(d) => {
                let fr = subvec(t, d + 1, t.len());
                assert(fr@ =~= t@.skip(d + 1));
                let f = match frac_exec(&fr) {
                    Some(f) => f,
                    None => return None,
                };
                proof {
                    exact = fold60(pv) * 1000 + frac_ms(fr@);
                }
                ms = sat_mul_add(acc, 1000, f, Ghost(fold60(pv)), Ghost(frac_ms(fr@)));
            },
            None => {
                proof {
                    exact = fold60(pv) * 1000;
                }
                ms = sat_mul_add(acc, 1000, 0, Ghost(fold60(pv)), Ghost(0));
            },
        }
    }
    assert(time_text_ms(t@) == Some(exact));
    if ms <= MAX_LRC_TIMESTAMP {
        Some(ms)
    } else {
        Some(MAX_LRC_TIMESTAMP)
    }
}

/// A `[time]` tag at the start of `s`: the characters consumed and the time.
/// Tags such as `[ar:Artist]` (a colon and an alphabetic first character) are
/// metadata and yield nothing.
pub open spec fn lrc_stamp(s: Seq<char>) -> Option<(int, u64)> {
    if s.len() > 0 && s[0] == '[' {
        match find(s, ']') {
            Some(e) => {
                let ts = s.subrange(1, e);
                if contains_char(ts, ':') && ts.len() > 0 && unicode_alphabetic(ts[0]) {
                    None
                } else {
                    match time_text(ts) {
                        Some(t) => Some((e + 1, t)),
                        None => None,
                    }
                }
            },
            None => None,
        }
    } else {
        None
    }
}

pub proof fn lemma_lrc_stamp_bounds(s: Seq<char>)
    ensures
        lrc_stamp(s) matches Some((k, t)) ==> 2 <= k <= s.len(),
{
    lemma_find(s, ']');
}

pub fn lrc_stamp_exec(s: &Vec<char>) -> (r: Option<(usize, u64)>)
    ensures
        match r {
            Some((k, t)) => lrc_stamp(s@) == Some((k as int, t)) && 2 <= k <= s.len(),
            None => lrc_stamp(s@) is None,
        },
{
    if s.len() == 0 || s[0] != '[' {
        return None;
    }
    let e = match find_char(s, ']') {
        Some(e) => e,
        None => return None,
    };
    proof {
        lemma_find(s@, ']');
    }
    let ts = subvec(s, 1, e);
    if has_char(&ts, ':') && ts.len() > 0 && is_alphabetic(ts[0]) {
        return None;
    }
    match time_text_exec(&ts) {
        Some(t) => Some((e + 1, t)),
        None => None,
    }
}

/// Parse timestamp from LRC format `[mm:ss.xx]`; returns the bytes consumed and
/// the time in milliseconds.
pub fn parse_time(src: &str) -> (r: Option<(usize, u64)>)
    ensures
        match lrc_stamp(src@) {
            Some((k, t)) => r == Some((sat_usize(utf8_len(src@.take(k))), t)),
            None => r is None,
        },
{
    let s = chars_of(src);
    match lrc_stamp_exec(&s) {
        Some((k, t)) => Some((utf8_prefix_len(&s, k), t)),
        None => None,
    }
}

// ----------------------------------------------------------------------------
// Line text
// ----------------------------------------------------------------------------

pub open spec fn is_open_paren(c: char) -> bool {
    c == '(' || c == '\u{FF08}'
}

pub open spec fn is_close_paren(c: char) -> bool {
    c == ')' || c == '\u{FF09}'
}

/// The trimmed text, and whether it was wrapped in parentheses (ASCII or
/// full-width, in any combination), which marks a background line; the
/// parentheses are then removed and the inside trimmed again.
pub open spec fn strip_background(text: Seq<char>) -> (Seq<char>, bool) {
    let t = trim(text);
    if t.len() >= 2 && is_open_paren(t[0]) && is_close_paren(t.last()) {
        (trim(t.subrange(1, t.len() - 1)), true)
    } else {
        (t, false)
    }
}

pub fn strip_background_text(text: &Vec<char>) -> (r: (Vec<char>, bool))
    ensures
        (r.0@, r.1) == strip_background(text@),
{
    let t = trim_chars(text);
    let n = t.len();
    if n >= 2 && (t[0] == '(' || t[0] == '\u{FF08}') && (t[n - 1] == ')' || t[n - 1] == '\u{FF09}') {
        let inner = subvec(&t, 1, n - 1);
        (trim_chars(&inner), true)
    } else {
        (t, false)
    }
}

/// The texts of `ws` one after the other.
pub open spec fn words_text(ws: Seq<SpecWord>) -> Seq<char>
    decreases ws.len(),
{
    if ws.len() == 0 {
        Seq::empty()
    } else {
        words_text(ws.drop_last()) + ws.last().word
    }
}

/// The words' text is the words one after the other: nothing for no words,
/// and one more word adds exactly its text at the end.
pub proof fn lemma_words_text_concatenates(ws: Seq<SpecWord>, w: SpecWord)
    ensures
        words_text(Seq::<SpecWord>::empty()) == Seq::<char>::empty(),
        words_text(ws.push(w)) == words_text(ws) + w.word,
{
    assert(ws.push(w).drop_last() =~= ws);
}

pub fn words_text_exec(ws: &Vec<LyricWordOwned>) -> (r: Vec<char>)
    ensures
        r@ == words_text(words_view(ws@)),
{
    let ghost v = words_view(ws@);
    let mut r: Vec<char> = Vec::new();
    let mut i: usize = 0;
    while i < ws.len()
        invariant
            i <= ws.len(),
            v == words_view(ws@),
            r@ == words_text(v.take(i as int)),
        decreases ws.len() - i,
    {
        assert(v[i as int] == ws@[i as int]@);
        assert(v.take(i + 1).drop_last() =~= v.take(i as int));
        let w = string_chars(&ws[i].word);
        let mut j: usize = 0;
        let ghost r0 = r@;
        while j < w.len()
            invariant
                j <= w.len(),
                r@ == r0 + w@.take(j as int),
            decreases w.len() - j,
        {
            r.push(w[j]);
            assert(r0 + w@.take(j + 1) =~= (r0 + w@.take(j as int)).push(w@[j as int]));
            j += 1;
        }
        assert(w@.take(w.len() as int) =~= w@);
        i += 1;
    }
    assert(v.take(ws.len() as int) =~= v);
    r
}

/// The trimmed text of a line's words.
pub open spec fn line_text(l: SpecLine) -> Seq<char> {
    trim(words_text(l.words))
}

pub fn line_text_exec(l: &LyricLineOwned) -> (r: Vec<char>)
    ensures
        r@ == line_text(l@),
{
    let t = words_text_exec(&l.words);
    trim_chars(&t)
}

pub open spec fn is_ascii_punct(c: char) -> bool {
    ('!' <= c && c <= '/') || (':' <= c && c <= '@') || ('[' <= c && c <= '`') || ('{' <= c && c <= '~')
}

/// The script class bit of a character: Han 1, Hiragana 2, Katakana 4,
/// Hangul 8, Latin 16, Cyrillic 32, other alphabetic 64; whitespace, ASCII
/// punctuation, ASCII digits and everything else 0.
pub open spec fn script_bit(c: char) -> u8 {
    let u = c as u32;
    if is_ws(c) || is_ascii_punct(c) || is_digit(c) {
        0
    } else if (0x4E00 <= u && u <= 0x9FFF) || (0x3400 <= u && u <= 0x4DBF) || (0xF900 <= u && u <= 0xFAFF) {
        1
    } else if 0x3040 <= u && u <= 0x309F {
        2
    } else if 0x30A0 <= u && u <= 0x30FF {
        4
    } else if 0xAC00 <= u && u <= 0xD7AF {
        8
    } else if ('A' <= c && c <= 'Z') || ('a' <= c && c <= 'z') || (0xC0 <= u && u <= 0x24F) {
        16
    } else if 0x400 <= u && u <= 0x4FF {
        32
    } else if unicode_alphabetic(c) {
        64
    } else {
        0
    }
}

/// The union of the script bits of the characters of `s`.
pub open spec fn script_mask(s: Seq<char>) -> u8
    decreases s.len(),
{
    if s.len() == 0 {
        0
    } else {
        script_mask(s.drop_last()) | script_bit(s.last())
    }
}

fn script_bit_exec(c: char) -> (r: u8)
    ensures
        r == script_bit(c),
{
    let u = c as u32;
    if is_whitespace(c) || ('!' <= c && c <= '/') || (':' <= c && c <= '@') || ('[' <= c && c <= '`')
        || ('{' <= c && c <= '~') || ('0' <= c && c <= '9') {
        0
    } else if (0x4E00 <= u && u <= 0x9FFF) || (0x3400 <= u && u <= 0x4DBF) || (0xF900 <= u && u <= 0xFAFF) {
        1
    } else if 0x3040 <= u && u <= 0x309F {
        2
    } else if 0x30A0 <= u && u <= 0x30FF {
        4
    } else if 0xAC00 <= u && u <= 0xD7AF {
        8
    } else if ('A' <= c && c <= 'Z') || ('a' <= c && c <= 'z') || (0xC0 <= u && u <= 0x24F) {
        16
    } else if 0x400 <= u && u <= 0x4FF {
        32
    } else if is_alphabetic(c) {
        64
    } else {
        0
    }
}

pub fn text_script_mask(text: &Vec<char>) -> (r: u8)
    ensures
        r == script_mask(text@),
{
    let mut mask: u8 = 0;
    let mut i: usize = 0;
    while i < text.len()
        invariant
            i <= text.len(),
            mask == script_mask(text@.take(i as int)),
        decreases text.len() - i,
    {
        assert(text@.take(i + 1).drop_last() =~= text@.take(i as int));
        mask = mask | script_bit_exec(text[i]);
        i += 1;
    }
    assert(text@.take(text.len() as int) =~= text@);
    mask
}

// ----------------------------------------------------------------------------
// Lines that share a timestamp
// ----------------------------------------------------------------------------

/// Two or three lines with one timestamp are one line with its translation
/// (and romanization) when they agree on being background lines, each has a
/// non-empty text in some script, the texts differ, and at least two scripts occur.
pub open spec fn merge_ok(g: Seq<SpecLine>) -> bool {
    &&& 2 <= g.len() <= 3
    &&& forall|i: int| 0 <= i < g.len() ==> (#[trigger] g[i]).is_bg == g[0].is_bg
    &&& forall|i: int|
        0 <= i < g.len() ==> line_text(#[trigger] g[i]).len() > 0 && script_mask(line_text(g[i])) != 0
    &&& forall|i: int, j: int| 0 <= i < j < g.len() ==> line_text(g[i]) != line_text(g[j])
    &&& exists|i: int, j: int|
        0 <= i < g.len() && 0 <= j < g.len() && script_mask(line_text(g[i])) != script_mask(
            line_text(g[j]),
        )
}

/// The first line of a mergeable group, given the second line's text as its
/// translation and the third's as its romanization where it has none.
pub open spec fn merged(g: Seq<SpecLine>) -> SpecLine {
    let m = g[0];
    SpecLine {
        translated_lyric: if m.translated_lyric.len() == 0 { line_text(g[1]) } else { m.translated_lyric },
        roman_lyric: if g.len() > 2 && m.roman_lyric.len() == 0 { line_text(g[2]) } else { m.roman_lyric },
        ..m
    }
}

fn seq_eq(a: &Vec<char>, b: &Vec<char>) -> (r: bool)
    ensures
        r == (a@ == b@),
{
    if a.len() != b.len() {
        return false;
    }
    let mut i: usize = 0;
    while i < a.len()
        invariant
            a.len() == b.len(),
            i <= a.len(),
            forall|j: int| 0 <= j < i ==> a@[j] == b@[j],
        decreases a.len() - i,
    {
        if a[i] != b[i] {
            return false;
        }
        i += 1;
    }
    assert(a@ =~= b@);
    true
}

/// Whether the lines `lines[lo..hi]` form a mergeable group.
fn should_merge_duplicate_group(lines: &Vec<LyricLineOwned>, lo: usize, hi: usize) -> (r: bool)
    requires
        lo <= hi <= lines.len(),
    ensures
        r == merge_ok(lines_view(lines@).subrange(lo as int, hi as int)),
{
    let ghost g = lines_view(lines@).subrange(lo as int, hi as int);
    let n = hi - lo;
    if n < 2 || n > 3 {
        return false;
    }
    assert(g[0] == lines@[lo as int]@);
    assert(g[1] == lines@[lo + 1]@);
    let bg = lines[lo].is_bg;
    if lines[lo + 1].is_bg != bg {
        assert(!merge_ok(g)) by {
            assert(g[1].is_bg != g[0].is_bg);
        }
        return false;
    }
    let t0 = line_text_exec(&lines[lo]);
    let t1 = line_text_exec(&lines[lo + 1]);
    let m0 = text_script_mask(&t0);
    let m1 = text_script_mask(&t1);
    if n == 2 {
        let ok = t0.len() > 0 && m0 != 0 && t1.len() > 0 && m1 != 0 && !seq_eq(&t0, &t1) && m0 != m1;
        proof {
            if ok {
                assert forall|i: int| 0 <= i < g.len() implies (#[trigger] g[i]).is_bg == g[0].is_bg by {}
                assert forall|i: int|
                    0 <= i < g.len() implies line_text(#[trigger] g[i]).len() > 0 && script_mask(
                        line_text(g[i]),
                    ) != 0 by {}
                assert(script_mask(line_text(g[0])) != script_mask(line_text(g[1])));
            } else {
                if merge_ok(g) {
                    assert(line_text(g[0]).len() > 0 && script_mask(line_text(g[0])) != 0);
                    assert(line_text(g[1]).len() > 0 && script_mask(line_text(g[1])) != 0);
                    assert(line_text(g[0]) != line_text(g[1]));
                    let (i, j) = choose|i: int, j: int|
                        0 <= i < g.len() && 0 <= j < g.len() && script_mask(line_text(g[i]))
                            != script_mask(line_text(g[j]));
                    assert(m0 != m1);
                }
            }
        }
        return ok;
    }
    assert(g[2] == lines@[lo + 2]@);
    if lines[lo + 2].is_bg != bg {
        assert(!merge_ok(g)) by {
            assert(g[2].is_bg != g[0].is_bg);
        }
        return false;
    }
    let t2 = line_text_exec(&lines[lo + 2]);
    let m2 = text_script_mask(&t2);
    let ok = t0.len() > 0 && m0 != 0 && t1.len() > 0 && m1 != 0 && t2.len() > 0 && m2 != 0
        && !seq_eq(&t0, &t1) && !seq_eq(&t0, &t2) && !seq_eq(&t1, &t2) && (m0 != m1 || m0 != m2
        || m1 != m2);
    proof {
        if ok {
            assert forall|i: int| 0 <= i < g.len() implies (#[trigger] g[i]).is_bg == g[0].is_bg by {}
            assert forall|i: int|
                0 <= i < g.len() implies line_text(#[trigger] g[i]).len() > 0 && script_mask(
                    line_text(g[i]),
                ) != 0 by {}
            assert forall|i: int, j: int| 0 <= i < j < g.len() implies line_text(g[i]) != line_text(
                g[j],
            ) by {}
            if m0 != m1 {
                assert(script_mask(line_text(g[0])) != script_mask(line_text(g[1])));
            } else if m0 != m2 {
                assert(script_mask(line_text(g[0])) != script_mask(line_text(g[2])));
            } else {
                assert(script_mask(line_text(g[1])) != script_mask(line_text(g[2])));
            }
        } else {
            if merge_ok(g) {
                assert(line_text(g[0]).len() > 0 && script_mask(line_text(g[0])) != 0);
                assert(line_text(g[1]).len() > 0 && script_mask(line_text(g[1])) != 0);
                assert(line_text(g[2]).len() > 0 && script_mask(line_text(g[2])) != 0);
                assert(line_text(g[0]) != line_text(g[1]));
                assert(line_text(g[0]) != line_text(g[2]));
                assert(line_text(g[1]) != line_text(g[2]));
                let (i, j) = choose|i: int, j: int|
                    0 <= i < g.len() && 0 <= j < g.len() && script_mask(line_text(g[i]))
                        != script_mask(line_text(g[j]));
                assert(m0 != m1 || m0 != m2 || m1 != m2);
            }
        }
    }
    ok
}

/// Number of leading lines of `s` that start at `t`.
pub open spec fn same_start_prefix(s: Seq<SpecLine>, t: u64) -> nat
    decreases s.len(),
{
    if s.len() > 0 && s[0].start_time == t {
        1 + same_start_prefix(s.drop_first(), t)
    } else {
        0
    }
}

pub proof fn lemma_same_start_prefix(s: Seq<SpecLine>, t: u64)
    ensures
        same_start_prefix(s, t) <= s.len(),
        forall|j: int| 0 <= j < same_start_prefix(s, t) ==> (#[trigger] s[j]).start_time == t,
        same_start_prefix(s, t) < s.len() ==> s[same_start_prefix(s, t) as int].start_time != t,
    decreases s.len(),
{
    if s.len() > 0 && s[0].start_time == t {
        lemma_same_start_prefix(s.drop_first(), t);
        assert forall|j: int| 0 <= j < same_start_prefix(s, t) implies (#[trigger] s[j]).start_time == t by {
            if j > 0 {
                assert(s[j] == s.drop_first()[j - 1]);
            }
        }
        if same_start_prefix(s, t) < s.len() {
            assert(s[same_start_prefix(s, t) as int] == s.drop_first()[same_start_prefix(s.drop_first(), t) as int]);
        }
    }
}

pub proof fn lemma_same_start_prefix_at(s: Seq<SpecLine>, t: u64, k: int)
    requires
        0 <= k <= s.len(),
        forall|j: int| 0 <= j < k ==> (#[trigger] s[j]).start_time == t,
        k < s.len() ==> s[k].start_time != t,
    ensures
        same_start_prefix(s, t) == k,
    decreases s.len(),
{
    if k > 0 {
        assert(s[0].start_time == t);
        assert forall|j: int| 0 <= j < k - 1 implies (#[trigger] s.drop_first()[j]).start_time == t by {
            assert(s.drop_first()[j] == s[j + 1]);
        }
        if k - 1 < s.drop_first().len() {
            assert(s.drop_first()[k - 1] == s[k]);
        }
        lemma_same_start_prefix_at(s.drop_first(), t, k - 1);
    }
}

/// Groups of consecutive lines with one timestamp, each mergeable group
/// replaced by its merged line.
pub open spec fn merge_dups(s: Seq<SpecLine>) -> Seq<SpecLine>
    decreases s.len(),
{
    if s.len() == 0 {
        Seq::empty()
    } else {
        let n = same_start_prefix(s, s[0].start_time);
        proof {
            lemma_same_start_prefix(s, s[0].start_time);
        }
        let g = s.take(n as int);
        (if merge_ok(g) { seq![merged(g)] } else { g }) + merge_dups(s.skip(n as int))
    }
}

fn merge_duplicate_timestamp_attrs(lines: &Vec<LyricLineOwned>) -> (r: Vec<LyricLineOwned>)
    ensures
        lines_view(r@) == merge_dups(lines_view(lines@)),
{
    let ghost lv = lines_view(lines@);
    let mut merged_lines: Vec<LyricLineOwned> = Vec::new();
    let mut index: usize = 0;
    assert(lv.skip(0) =~= lv);
    while index < lines.len()
        invariant
            index <= lines.len(),
            lv == lines_view(lines@),
            lines_view(merged_lines@) + merge_dups(lv.skip(index as int)) == merge_dups(lv),
        decreases lines.len() - index,
    {
        let start_time = lines[index].start_time;
        let mut end = index + 1;
        while end < lines.len() && lines[end].start_time == start_time
            invariant
                index < end <= lines.len(),
                start_time == lines@[index as int].start_time,
                forall|j: int| index <= j < end ==> (#[trigger] lines@[j]).start_time == start_time,
            decreases lines.len() - end,
        {
            end += 1;
        }
        let ghost rest = lv.skip(index as int);
        proof {
            assert(rest[0] == lines@[index as int]@);
            assert forall|j: int| 0 <= j < end - index implies (#[trigger] rest[j]).start_time == start_time by {
                assert(rest[j] == lines@[index + j]@);
            }
            if end < lines.len() {
                assert(rest[end - index] == lines@[end as int]@);
            }
            lemma_same_start_prefix_at(rest, start_time, end - index);
            assert(rest.take(end - index) =~= lv.subrange(index as int, end as int));
            assert(rest.skip(end - index) =~= lv.skip(end as int));
        }
        let ghost g = lv.subrange(index as int, end as int);
        let ghost before = lines_view(merged_lines@);
        if should_merge_duplicate_group(lines, index, end) {
            let mut main = lines[index].duplicate();
            assert(g[0] == lines@[index as int]@);
            assert(g[1] == lines@[index + 1]@);
            if string_is_empty(&main.translated_lyric) {
                let t = line_text_exec(&lines[index + 1]);
                main.translated_lyric = string_of(&t);
            }
            if end - index > 2 && string_is_empty(&main.roman_lyric) {
                assert(g[2] == lines@[index + 2]@);
                let t = line_text_exec(&lines[index + 2]);
                main.roman_lyric = string_of(&t);
            }
            assert(main@ == merged(g));
            proof {
                lemma_lines_view_push(merged_lines@, main);
            }
            merged_lines.push(main);
            assert(lines_view(merged_lines@) == before + seq![merged(g)]);
        } else {
            let mut j = index;
            while j < end
                invariant
                    index <= j <= end <= lines.len(),
                    lv == lines_view(lines@),
                    g == lv.subrange(index as int, end as int),
                    lines_view(merged_lines@) == before + lv.subrange(index as int, j as int),
                decreases end - j,
            {
                let c = lines[j].duplicate();
                assert(lv[j as int] == lines@[j as int]@);
                proof {
                    lemma_lines_view_push(merged_lines@, c);
                }
                merged_lines.push(c);
                assert(before + lv.subrange(index as int, j + 1) =~= (before + lv.subrange(
                    index as int,
                    j as int,
                )).push(lv[j as int]));
                j += 1;
            }
        }
        assert(lines_view(merged_lines@) + merge_dups(lv.skip(end as int)) =~= before + merge_dups(rest));
        index = end;
    }
    assert(lv.skip(index as int) =~= Seq::<SpecLine>::empty());
    assert(lines_view(merged_lines@) + Seq::<SpecLine>::empty() =~= lines_view(merged_lines@));
    merged_lines
}

// ----------------------------------------------------------------------------
// Lines and files
// ----------------------------------------------------------------------------

/// The leading `[time]` tags of `s`: their times and the characters they take.
pub open spec fn lrc_stamps(s: Seq<char>) -> (Seq<u64>, int)
    decreases s.len(),
{
    if s.len() == 0 {
        (Seq::empty(), 0)
    } else {
        match lrc_stamp(s) {
            Some((k, t)) => {
                proof {
                    lemma_lrc_stamp_bounds(s);
                }
                let (ts, m) = lrc_stamps(s.skip(k));
                (seq![t] + ts, k + m)
            },
            None => (Seq::empty(), 0),
        }
    }
}

pub proof fn lemma_lrc_stamps_bounds(s: Seq<char>)
    ensures
        0 <= lrc_stamps(s).1 <= s.len(),
    decreases s.len(),
{
    if s.len() > 0 {
        lemma_lrc_stamp_bounds(s);
        if let Some((k, t)) = lrc_stamp(s) {
            lemma_lrc_stamps_bounds(s.skip(k));
        }
    }
}

/// The line that one timestamp of an LRC line gives: one word holding the text.
pub open spec fn stamp_line(t: u64, text: Seq<char>, bg: bool) -> SpecLine {
    SpecLine {
        words: seq![plain_word(t, 0, text)],
        translated_lyric: Seq::empty(),
        roman_lyric: Seq::empty(),
        is_bg: bg,
        is_duet: false,
        start_time: t,
        end_time: 0,
    }
}

/// The lines of one LRC source line: one per leading timestamp, all with the
/// text after the timestamps.
pub open spec fn lrc_line(line: Seq<char>) -> Seq<SpecLine> {
    let t = trim(line);
    let (ts, k) = lrc_stamps(t);
    if ts.len() == 0 {
        Seq::empty()
    } else {
        let (text, bg) = strip_background(t.skip(k));
        ts.map_values(|x: u64| stamp_line(x, text, bg))
    }
}

fn stamp_line_exec(t: u64, text: &Vec<char>, bg: bool) -> (r: LyricLineOwned)
    ensures
        r@ == stamp_line(t, text@, bg),
{
    let mut words: Vec<LyricWordOwned> = Vec::new();
    words.push(LyricWordOwned::plain(t, 0, string_of(text)));
    let r = LyricLineOwned {
        words,
        translated_lyric: String::new(),
        roman_lyric: String::new(),
        is_bg: bg,
        is_duet: false,
        start_time: t,
        end_time: 0,
    };
    assert(r@.words =~= seq![plain_word(t, 0, text@)]);
    r
}

fn parse_line_chars(line: &Vec<char>) -> (r: Vec<LyricLineOwned>)
    ensures
        lines_view(r@) == lrc_line(line@),
{
    let t = trim_chars(line);
    let mut stamps: Vec<u64> = Vec::new();
    let mut pos: usize = 0;
    let mut done = false;
    assert(t@.skip(0) =~= t@);
    while pos < t.len() && !done
        invariant
            pos <= t.len(),
            done ==> pos < t.len() && lrc_stamps(t@.skip(pos as int)) == (Seq::<u64>::empty(), 0int),
            ({
                let (a, k) = lrc_stamps(t@.skip(pos as int));
                lrc_stamps(t@) == (stamps@ + a, pos + k)
            }),
        decreases t.len() - pos + (if done { 0int } else { 1int }),
    {
        let rest = subvec(&t, pos, t.len());
        assert(rest@ =~= t@.skip(pos as int));
        match lrc_stamp_exec(&rest) {
            Some((k, time)) => {
                assert(rest@.skip(k as int) =~= t@.skip(pos + k));
                assert(stamps@.push(time) + lrc_stamps(t@.skip(pos + k)).0 =~= stamps@ + (seq![time]
                    + lrc_stamps(t@.skip(pos + k)).0));
                stamps.push(time);
                pos = pos + k;
            },
            None => {
                assert(stamps@ + Seq::<u64>::empty() =~= stamps@);
                done = true;
            },
        }
    }
    proof {
        if !done {
            assert(t@.skip(pos as int) =~= Seq::<char>::empty());
            assert(stamps@ + Seq::<u64>::empty() =~= stamps@);
        }
    }
    let ghost (ts, k) = lrc_stamps(t@);
    assert(ts == stamps@ && k == pos);
    let mut results: Vec<LyricLineOwned> = Vec::new();
    if stamps.len() == 0 {
        return results;
    }
    let rest = subvec(&t, pos, t.len());
    assert(rest@ =~= t@.skip(pos as int));
    let (text, bg) = strip_background_text(&rest);
    let mut i: usize = 0;
    while i < stamps.len()
        invariant
            i <= stamps.len(),
            lines_view(results@) == stamps@.take(i as int).map_values(|x: u64| stamp_line(x, text@, bg)),
        decreases stamps.len() - i,
    {
        let l = stamp_line_exec(stamps[i], &text, bg);
        proof {
            lemma_lines_view_push(results@, l);
        }
        results.push(l);
        assert(stamps@.take(i + 1).map_values(|x: u64| stamp_line(x, text@, bg)) =~= stamps@.take(
            i as int,
        ).map_values(|x: u64| stamp_line(x, text@, bg)).push(stamp_line(stamps@[i as int], text@, bg)));
        i += 1;
    }
    assert(stamps@.take(stamps.len() as int) =~= stamps@);
    results
}

/// Parse a single LRC line, which may have multiple timestamps.
pub fn parse_line(line: &str) -> (r: Vec<LyricLineOwned>)
    ensures
        lines_view(r@) == lrc_line(line@),
{
    let cs = chars_of(line);
    parse_line_chars(&cs)
}

/// All the lines of all the source lines, in source order.
pub open spec fn lrc_flat(ls: Seq<Seq<char>>) -> Seq<SpecLine>
    decreases ls.len(),
{
    if ls.len() == 0 {
        Seq::empty()
    } else {
        lrc_flat(ls.drop_last()) + lrc_line(ls.last())
    }
}

/// End time of line `i` of a timestamp-sorted list: the start of the next
/// line with a different timestamp, or `MAX_LRC_TIMESTAMP` after the last group.
pub open spec fn next_distinct_start(s: Seq<SpecLine>, i: int) -> u64
    decreases s.len() - i,
{
    if i + 1 >= s.len() {
        MAX_LRC_TIMESTAMP
    } else if s[i + 1].start_time != s[i].start_time {
        s[i + 1].start_time
    } else {
        next_distinct_start(s, i + 1)
    }
}

/// `l` ending at `e`, and so its first word.
pub open spec fn set_end(l: SpecLine, e: u64) -> SpecLine {
    SpecLine {
        end_time: e,
        words: if l.words.len() > 0 {
            l.words.update(0, SpecWord { end_time: e, ..l.words[0] })
        } else {
            l.words
        },
        ..l
    }
}

pub open spec fn with_ends(s: Seq<SpecLine>) -> Seq<SpecLine> {
    Seq::new(s.len(), |i: int| set_end(s[i], next_distinct_start(s, i)))
}

/// Lines whose first word has text.
pub open spec fn keep_line(l: SpecLine) -> bool {
    l.words.len() > 0 && l.words[0].word.len() > 0
}

pub open spec fn retain_nonempty(s: Seq<SpecLine>) -> Seq<SpecLine>
    decreases s.len(),
{
    if s.len() == 0 {
        s
    } else {
        let r = retain_nonempty(s.drop_last());
        if keep_line(s.last()) { r.push(s.last()) } else { r }
    }
}

// ----------------------------------------------------------------------------
// The shape of parsed LRC
// ----------------------------------------------------------------------------

/// A line as LRC gives it: one word holding trimmed text, starting with the
/// line at most at `MAX_LRC_TIMESTAMP`.
pub open spec fn lrc_shaped(l: SpecLine) -> bool {
    &&& l.words.len() == 1
    &&& l.start_time == l.words[0].start_time
    &&& l.start_time <= MAX_LRC_TIMESTAMP
    &&& trim(l.words[0].word) == l.words[0].word
}

/// An LRC-shaped line that also ends with its word, not before it starts.
pub open spec fn lrc_timed(l: SpecLine) -> bool {
    &&& lrc_shaped(l)
    &&& l.end_time == l.words[0].end_time
    &&& l.start_time <= l.end_time <= MAX_LRC_TIMESTAMP
}

pub open spec fn starts_sorted(s: Seq<SpecLine>) -> bool {
    forall|i: int, j: int| 0 <= i <= j < s.len() ==> s[i].start_time <= s[j].start_time
}

proof fn lemma_lrc_stamps_capped(s: Seq<char>)
    ensures
        forall|i: int| 0 <= i < lrc_stamps(s).0.len() ==> #[trigger] lrc_stamps(s).0[i] <= MAX_LRC_TIMESTAMP,
    decreases s.len(),
{
    if s.len() > 0 {
        lemma_lrc_stamp_bounds(s);
        if let Some((k, t)) = lrc_stamp(s) {
            lemma_lrc_stamps_capped(s.skip(k));
            let ts = lrc_stamps(s.skip(k)).0;
            assert forall|i: int| 0 <= i < lrc_stamps(s).0.len() implies #[trigger] lrc_stamps(s).0[i]
                <= MAX_LRC_TIMESTAMP by {
                if i > 0 {
                    assert(lrc_stamps(s).0[i] == ts[i - 1]);
                }
            }
        }
    }
}

proof fn lemma_lrc_flat_shaped(ls: Seq<Seq<char>>)
    ensures
        forall|i: int| 0 <= i < lrc_flat(ls).len() ==> lrc_shaped(#[trigger] lrc_flat(ls)[i]),
    decreases ls.len(),
{
    if ls.len() > 0 {
        lemma_lrc_flat_shaped(ls.drop_last());
        let a = lrc_flat(ls.drop_last());
        let b = lrc_line(ls.last());
        let t = trim(ls.last());
        let (ts, k) = lrc_stamps(t);
        lemma_lrc_stamps_capped(t);
        if ts.len() > 0 {
            let (text, bg) = strip_background(t.skip(k));
            let u = trim(t.skip(k));
            lemma_trim_idempotent(t.skip(k));
            if u.len() >= 2 && is_open_paren(u[0]) && is_close_paren(u.last()) {
                lemma_trim_idempotent(u.subrange(1, u.len() - 1));
            }
            assert(trim(text) == text);
        }
        assert forall|i: int| 0 <= i < lrc_flat(ls).len() implies lrc_shaped(#[trigger] lrc_flat(ls)[i]) by {
            if i >= a.len() {
                assert(lrc_flat(ls)[i] == b[i - a.len()]);
            } else {
                assert(lrc_flat(ls)[i] == a[i]);
            }
        }
    }
}

proof fn lemma_merge_dups_shape(s: Seq<SpecLine>)
    requires
        starts_sorted(s),
        forall|i: int| 0 <= i < s.len() ==> lrc_shaped(#[trigger] s[i]),
    ensures
        starts_sorted(merge_dups(s)),
        forall|i: int| 0 <= i < merge_dups(s).len() ==> lrc_shaped(#[trigger] merge_dups(s)[i]),
        forall|i: int|
            0 <= i < merge_dups(s).len() ==> exists|j: int| 0 <= j < s.len() && (#[trigger] merge_dups(s)[i]).start_time
                == s[j].start_time,
    decreases s.len(),
{
    if s.len() > 0 {
        let t = s[0].start_time;
        let n = same_start_prefix(s, t);
        lemma_same_start_prefix(s, t);
        assert(n >= 1) by {
            assert(s.len() > 0 && s[0].start_time == t);
        }
        let g = s.take(n as int);
        let rest = s.skip(n as int);
        assert forall|i: int, j: int| 0 <= i <= j < rest.len() implies rest[i].start_time <= rest[j].start_time by {
            assert(rest[i] == s[i + n] && rest[j] == s[j + n]);
        }
        assert forall|i: int| 0 <= i < rest.len() implies lrc_shaped(#[trigger] rest[i]) by {
            assert(rest[i] == s[i + n]);
        }
        lemma_merge_dups_shape(rest);
        let a = if merge_ok(g) { seq![merged(g)] } else { g };
        let b = merge_dups(rest);
        assert(merge_dups(s) == a + b);
        assert forall|i: int| 0 <= i < a.len() implies lrc_shaped(#[trigger] a[i]) && a[i].start_time == t by {
            if merge_ok(g) {
                assert(g[0] == s[0]);
            } else {
                assert(g[i] == s[i]);
            }
        }
        assert forall|i: int| 0 <= i < b.len() implies (#[trigger] b[i]).start_time >= t && exists|j: int|
            0 <= j < s.len() && b[i].start_time == s[j].start_time by {
            let j = choose|j: int| 0 <= j < rest.len() && b[i].start_time == rest[j].start_time;
            assert(rest[j] == s[j + n]);
        }
        let m = merge_dups(s);
        assert forall|i: int| 0 <= i < m.len() implies lrc_shaped(#[trigger] m[i]) && exists|j: int|
            0 <= j < s.len() && m[i].start_time == s[j].start_time by {
            if i < a.len() {
                assert(m[i] == a[i]);
                assert(s[0].start_time == m[i].start_time);
            } else {
                assert(m[i] == b[i - a.len()]);
            }
        }
        assert forall|i: int, j: int| 0 <= i <= j < m.len() implies m[i].start_time <= m[j].start_time by {
            if j < a.len() {
                assert(m[i] == a[i] && m[j] == a[j]);
            } else if i < a.len() {
                assert(m[i] == a[i] && m[j] == b[j - a.len()]);
            } else {
                assert(m[i] == b[i - a.len()] && m[j] == b[j - a.len()]);
            }
        }
    }
}

proof fn lemma_next_distinct_bounds(s: Seq<SpecLine>, i: int)
    requires
        0 <= i < s.len(),
        starts_sorted(s),
        forall|k: int| 0 <= k < s.len() ==> (#[trigger] s[k]).start_time <= MAX_LRC_TIMESTAMP,
    ensures
        s[i].start_time <= next_distinct_start(s, i) <= MAX_LRC_TIMESTAMP,
    decreases s.len() - i,
{
    if i + 1 < s.len() && s[i + 1].start_time == s[i].start_time {
        lemma_next_distinct_bounds(s, i + 1);
    }
}

proof fn lemma_with_ends_timed(s: Seq<SpecLine>)
    requires
        starts_sorted(s),
        forall|i: int| 0 <= i < s.len() ==> lrc_shaped(#[trigger] s[i]),
    ensures
        with_ends(s).len() == s.len(),
        starts_sorted(with_ends(s)),
        forall|i: int| 0 <= i < s.len() ==> lrc_timed(#[trigger] with_ends(s)[i]),
{
    let w = with_ends(s);
    assert forall|i: int| 0 <= i < s.len() implies lrc_timed(#[trigger] w[i]) && w[i].start_time == s[i].start_time by {
        assert forall|k: int| 0 <= k < s.len() implies (#[trigger] s[k]).start_time <= MAX_LRC_TIMESTAMP by {
            assert(lrc_shaped(s[k]));
        }
        lemma_next_distinct_bounds(s, i);
        assert(lrc_shaped(s[i]));
    }
    assert forall|i: int, j: int| 0 <= i <= j < w.len() implies w[i].start_time <= w[j].start_time by {
        assert(w[i].start_time == s[i].start_time && w[j].start_time == s[j].start_time);
    }
}

/// What `parse_lrc` returns for the text `src`: the timestamped lines sorted
/// by time (stable), same-time groups merged, each line ending at the next
/// distinct timestamp, processed, and the lines without text dropped.
pub open spec fn spec_parse_lrc(src: Seq<char>) -> Seq<SpecLine> {
    retain_nonempty(processed(with_ends(merge_dups(stable_sort(lrc_flat(lines_of(src)), false)))))
}

proof fn lemma_processed_timed(s: Seq<SpecLine>)
    requires
        forall|i: int| 0 <= i < s.len() ==> lrc_timed(#[trigger] s[i]),
    ensures
        starts_sorted(processed(s)),
        forall|i: int| 0 <= i < processed(s).len() ==> lrc_timed(#[trigger] processed(s)[i]),
{
    broadcast use vstd::seq_lib::group_to_multiset_ensures;

    lemma_stable_sort_sorts(s, true);
    let o = stable_sort(s, true);
    assert(o.len() == s.len()) by {
        assert(o.to_multiset().len() == s.to_multiset().len());
    }
    assert forall|i: int| 0 <= i < o.len() implies lrc_timed(#[trigger] o[i]) by {
        assert(o.to_multiset().count(o[i]) > 0);
        assert(s.contains(o[i]));
        let j = choose|j: int| 0 <= j < s.len() && s[j] == o[i];
        assert(lrc_timed(s[j]));
    }
    let c = o.map_values(|l: SpecLine| clamp_line(l));
    assert forall|i: int| 0 <= i < o.len() implies #[trigger] c[i] == o[i] by {
        let l = o[i];
        assert(lrc_timed(l));
        assert(clamp_word(l.words[0]) == l.words[0]);
        assert(l.words.map_values(|w: SpecWord| clamp_word(w)) =~= l.words);
    }
    assert(c =~= o);
    let p = processed(s);
    assert forall|i: int| 0 <= i < p.len() implies lrc_timed(#[trigger] p[i]) && p[i].start_time == o[i].start_time by {
        assert(p[i] == fill_end(c, i));
        assert(lrc_timed(o[i]));
        if i + 1 < o.len() {
            assert(lrc_timed(o[i + 1]));
            assert(line_key(o[i], true) <= line_key(o[i + 1], true));
        }
    }
    assert forall|i: int, j: int| 0 <= i <= j < p.len() implies p[i].start_time <= p[j].start_time by {
        assert(lrc_timed(o[i]) && lrc_timed(o[j]));
        assert(line_key(o[i], true) <= line_key(o[j], true));
    }
}

proof fn lemma_retain_nonempty_sorted(s: Seq<SpecLine>)
    requires
        starts_sorted(s),
    ensures
        starts_sorted(retain_nonempty(s)),
        forall|i: int|
            0 <= i < retain_nonempty(s).len() ==> keep_line(#[trigger] retain_nonempty(s)[i]) && exists|j: int|
                0 <= j < s.len() && retain_nonempty(s)[i] == s[j],
    decreases s.len(),
{
    if s.len() > 0 {
        let u = s.drop_last();
        assert forall|i: int, j: int| 0 <= i <= j < u.len() implies u[i].start_time <= u[j].start_time by {
            assert(u[i] == s[i] && u[j] == s[j]);
        }
        lemma_retain_nonempty_sorted(u);
        let r = retain_nonempty(u);
        assert forall|i: int| 0 <= i < r.len() implies (#[trigger] r[i]).start_time <= s.last().start_time && exists|j: int|
            0 <= j < s.len() && r[i] == s[j] by {
            let j = choose|j: int| 0 <= j < u.len() && r[i] == u[j];
            assert(u[j] == s[j]);
        }
        if keep_line(s.last()) {
            let r2 = r.push(s.last());
            assert forall|i: int, j: int| 0 <= i <= j < r2.len() implies r2[i].start_time <= r2[j].start_time by {
                if j == r.len() {
                    if i < r.len() {
                        assert(r2[i] == r[i]);
                    }
                } else {
                    assert(r2[i] == r[i] && r2[j] == r[j]);
                }
            }
            assert forall|i: int| 0 <= i < r2.len() implies keep_line(#[trigger] r2[i]) && exists|j: int|
                0 <= j < s.len() && r2[i] == s[j] by {
                if i == r.len() {
                    assert(r2[i] == s[s.len() - 1]);
                } else {
                    assert(r2[i] == r[i]);
                }
            }
        }
    }
}

/// What `parse_lrc` gives is ordered by start time, and each line holds one
/// non-empty, trimmed word that starts and ends with the line, which does not
/// end before it starts nor after `MAX_LRC_TIMESTAMP`.
pub proof fn lemma_parse_lrc_shape(src: Seq<char>)
    ensures
        starts_sorted(spec_parse_lrc(src)),
        forall|i: int|
            0 <= i < spec_parse_lrc(src).len() ==> {
                let l = #[trigger] spec_parse_lrc(src)[i];
                &&& l.words.len() == 1
                &&& l.words[0].word.len() > 0
                &&& trim(l.words[0].word) == l.words[0].word
                &&& l.start_time == l.words[0].start_time
                &&& l.end_time == l.words[0].end_time
                &&& l.start_time <= l.end_time <= MAX_LRC_TIMESTAMP
            },
{
    broadcast use vstd::seq_lib::group_to_multiset_ensures;

    let flat = lrc_flat(lines_of(src));
    lemma_lrc_flat_shaped(lines_of(src));
    lemma_stable_sort_sorts(flat, false);
    let sorted = stable_sort(flat, false);
    assert forall|i: int| 0 <= i < sorted.len() implies lrc_shaped(#[trigger] sorted[i]) by {
        assert(sorted.to_multiset().count(sorted[i]) > 0);
        assert(flat.contains(sorted[i]));
    }
    assert forall|i: int, j: int| 0 <= i <= j < sorted.len() implies sorted[i].start_time <= sorted[j].start_time by {
        assert(line_key(sorted[i], false) <= line_key(sorted[j], false));
    }
    lemma_merge_dups_shape(sorted);
    let merged_lines = merge_dups(sorted);
    lemma_with_ends_timed(merged_lines);
    let ended = with_ends(merged_lines);
    lemma_processed_timed(ended);
    let p = processed(ended);
    lemma_retain_nonempty_sorted(p);
    let r = retain_nonempty(p);
    assert forall|i: int| 0 <= i < r.len() implies lrc_timed(#[trigger] r[i]) && keep_line(r[i]) by {
        let j = choose|j: int| 0 <= j < p.len() && r[i] == p[j];
        assert(lrc_timed(p[j]));
    }
}

fn set_end_exec(line: LyricLineOwned, e: u64) -> (r: LyricLineOwned)
    ensures
        r@ == set_end(line@, e),
{
    let mut line = line;
    let ghost l0 = line@;
    line.end_time = e;
    if line.words.len() > 0 {
        let ghost ws0 = line.words@;
        let mut w = line.words.remove(0);
        proof {
            lemma_words_view_remove_first(ws0);
        }
        w.end_time = e;
        line.words.insert(0, w);
        assert(line@.words =~= l0.words.update(0, SpecWord { end_time: e, ..l0.words[0] }));
    }
    line
}

/// The end times of a timestamp-sorted list, one per line.
fn distinct_ends(lines: &Vec<LyricLineOwned>) -> (r: Vec<u64>)
    ensures
        r@.len() == lines@.len(),
        forall|i: int| 0 <= i < r@.len() ==> #[trigger] r@[i] == next_distinct_start(lines_view(lines@), i),
{
    let ghost lv = lines_view(lines@);
    let n = lines.len();
    let mut ends: Vec<u64> = Vec::new();
    let mut k: usize = 0;
    while k < n
        invariant
            k <= n,
            n == lines@.len(),
            lv == lines_view(lines@),
            ends@.len() == k,
        decreases n - k,
    {
        ends.push(0);
        k += 1;
    }
    let mut next_distinct = MAX_LRC_TIMESTAMP;
    let mut idx = n;
    while idx > 0
        invariant
            idx <= n,
            n == lines@.len(),
            lv == lines_view(lines@),
            ends@.len() == n,
            forall|i: int| idx <= i < n ==> #[trigger] ends@[i] == next_distinct_start(lv, i),
            idx > 0 ==> next_distinct == next_distinct_start(lv, idx - 1),
        decreases idx,
    {
        idx -= 1;
        ends.set(idx, next_distinct);
        proof {
            if idx > 0 {
                assert(lv[idx as int] == lines@[idx as int]@);
                assert(lv[idx - 1] == lines@[idx - 1]@);
            }
        }
        if !(idx > 0 && lines[idx - 1].start_time == lines[idx].start_time) {
            next_distinct = lines[idx].start_time;
        }
    }
    ends
}

/// Parse LRC content into lyric lines.
pub fn parse_lrc(src: &str) -> (r: Vec<LyricLineOwned>)
    ensures
        lines_view(r@) == spec_parse_lrc(src@),
{
    let s = chars_of(src);
    let ls = lines_chars(&s);
    let ghost lv = views(ls@);
    let mut flat: Vec<LyricLineOwned> = Vec::new();
    let mut i: usize = 0;
    while i < ls.len()
        invariant
            i <= ls.len(),
            lv == views(ls@),
            lines_view(flat@) == lrc_flat(lv.take(i as int)),
        decreases ls.len() - i,
    {
        assert(lv[i as int] == ls@[i as int]@);
        assert(lv.take(i + 1).drop_last() =~= lv.take(i as int));
        let mut parsed = parse_line_chars(&ls[i]);
        let ghost a = lines_view(flat@);
        let ghost b = lines_view(parsed@);
        flat.append(&mut parsed);
        assert(lines_view(flat@) =~= a + b);
        i += 1;
    }
    assert(lv.take(ls.len() as int) =~= lv);
    assert(lv == lines_of(s@));
    let sorted = sort_lines(flat, false);
    let merged = merge_duplicate_timestamp_attrs(&sorted);
    let ghost mv = lines_view(merged@);
    let ends = distinct_ends(&merged);
    let mut src_lines = merged;
    let n = src_lines.len();
    let ghost target = with_ends(mv);
    let mut result: Vec<LyricLineOwned> = Vec::new();
    let mut k: usize = 0;
    assert(mv.skip(0) =~= mv);
    while k < n
        invariant
            k <= n,
            n == mv.len(),
            ends@.len() == n,
            forall|i: int| 0 <= i < n ==> #[trigger] ends@[i] == next_distinct_start(mv, i),
            lines_view(src_lines@) == mv.skip(k as int),
            src_lines.len() == n - k,
            target == with_ends(mv),
            lines_view(result@) == target.take(k as int),
        decreases n - k,
    {
        let ghost before = src_lines@;
        let x = src_lines.remove(0);
        proof {
            lemma_lines_view_remove_first(before);
        }
        assert(lines_view(src_lines@) =~= mv.skip(k + 1));
        assert(x@ == mv[k as int]);
        let y = set_end_exec(x, ends[k]);
        proof {
            lemma_lines_view_push(result@, y);
        }
        result.push(y);
        assert(target.take(k + 1) =~= target.take(k as int).push(target[k as int]));
        k += 1;
    }
    assert(target.take(n as int) =~= target);
    process_lyrics(&mut result);
    let ghost pv = lines_view(result@);
    let mut out: Vec<LyricLineOwned> = Vec::new();
    let m = result.len();
    let mut j: usize = 0;
    assert(pv.skip(0) =~= pv);
    while j < m
        invariant
            j <= m,
            m == pv.len(),
            lines_view(result@) == pv.skip(j as int),
            result.len() == m - j,
            lines_view(out@) == retain_nonempty(pv.take(j as int)),
        decreases m - j,
    {
        let ghost before = result@;
        let x = result.remove(0);
        proof {
            lemma_lines_view_remove_first(before);
        }
        assert(lines_view(result@) =~= pv.skip(j + 1));
        assert(x@ == pv[j as int]);
        assert(pv.take(j + 1).drop_last() =~= pv.take(j as int));
        let keep = x.words.len() > 0 && !string_is_empty(&x.words[0].word);
        assert(x@.words.len() > 0 ==> x@.words[0] == x.words@[0]@);
        if keep {
            proof {
                lemma_lines_view_push(out@, x);
            }
            out.push(x);
        }
        j += 1;
    }
    assert(pv.take(m as int) =~= pv);
    out
}

/// Parse sidecar LRC attributes like `.tlrc` using raw line timestamps.
pub fn parse_lrc_sidecar(content: &str) -> (r: Vec<LyricLineOwned>)
    ensures
        lines_view(r@) == spec_parse_lrc(content@),
{
    parse_lrc(content)
}

// ----------------------------------------------------------------------------
// Writing
// ----------------------------------------------------------------------------

/// `[mm:ss.mmm]` for a time in milliseconds; minutes take as many digits as they need.
pub open spec fn lrc_stamp_text(t: u64) -> Seq<char> {
    seq!['['] + dec_pad((t / 60000) as nat, 2) + seq![':'] + dec_pad(((t / 1000) % 60) as nat, 2)
        + seq!['.'] + dec_pad((t % 1000) as nat, 3) + seq![']']
}

/// Write timestamp in LRC format.
pub fn write_timestamp(result: &mut String, time: u64)
    ensures
        final(result)@ == old(result)@ + lrc_stamp_text(time),
{
    let ghost r0 = result@;
    push_char(result, '[');
    push_dec_pad(result, time / 60000, 2);
    push_char(result, ':');
    push_dec_pad(result, (time / 1000) % 60, 2);
    push_char(result, '.');
    push_dec_pad(result, time % 1000, 3);
    push_char(result, ']');
    assert(result@ =~= r0 + lrc_stamp_text(time));
}

/// One LRC line: the first word's timestamp and the words' text, in
/// parentheses for a background line.
pub open spec fn lrc_entry(l: SpecLine) -> Seq<char> {
    let t = words_text(l.words);
    lrc_stamp_text(l.words[0].start_time) + if l.is_bg {
        seq!['('] + t + seq![')']
    } else {
        t
    }
}

pub proof fn lemma_lrc_entries_len(s: Seq<SpecLine>)
    ensures
        lrc_entries(s).len() <= s.len(),
    decreases s.len(),
{
    if s.len() > 0 {
        lemma_lrc_entries_len(s.drop_last());
    }
}

/// Lines that have words, with their LRC text.
pub open spec fn lrc_entries(s: Seq<SpecLine>) -> Seq<Seq<char>>
    decreases s.len(),
{
    if s.len() == 0 {
        Seq::empty()
    } else {
        let r = lrc_entries(s.drop_last());
        if s.last().words.len() > 0 { r.push(lrc_entry(s.last())) } else { r }
    }
}

/// The pieces joined with newlines between them.
pub open spec fn join_lines(e: Seq<Seq<char>>) -> Seq<char>
    decreases e.len(),
{
    if e.len() == 0 {
        Seq::empty()
    } else if e.len() == 1 {
        e[0]
    } else {
        join_lines(e.drop_last()) + seq!['\n'] + e.last()
    }
}

/// The LRC text of `lines`.
pub open spec fn lrc_text(lines: Seq<SpecLine>) -> Seq<char> {
    join_lines(lrc_entries(lines))
}

proof fn lemma_join_lines_empty(e: Seq<Seq<char>>)
    requires
        forall|i: int| 0 <= i < e.len() ==> (#[trigger] e[i]).len() > 0,
    ensures
        join_lines(e).len() == 0 <==> e.len() == 0,
    decreases e.len(),
{
    if e.len() > 1 {
        assert(e.last() == e[e.len() - 1]);
    }
}

proof fn lemma_lrc_entries_nonempty(s: Seq<SpecLine>)
    ensures
        forall|i: int| 0 <= i < lrc_entries(s).len() ==> (#[trigger] lrc_entries(s)[i]).len() > 0,
    decreases s.len(),
{
    if s.len() > 0 {
        lemma_lrc_entries_nonempty(s.drop_last());
        let r = lrc_entries(s.drop_last());
        if s.last().words.len() > 0 {
            let e = lrc_entry(s.last());
            assert(e[0] == '[');
            assert forall|i: int| 0 <= i < lrc_entries(s).len() implies (#[trigger] lrc_entries(s)[i]).len() > 0 by {
                if i < r.len() {
                    assert(lrc_entries(s)[i] == r[i]);
                }
            }
        }
    }
}

/// Writing one more line: a line without words adds nothing; a line with
/// words adds, after a newline when something was written before, its first
/// word's timestamp followed by all its words one after the other (in
/// parentheses for a background line).
pub proof fn lemma_lrc_line_holds_all_words(lines: Seq<SpecLine>, l: SpecLine)
    ensures
        l.words.len() == 0 ==> lrc_text(lines.push(l)) == lrc_text(lines),
        l.words.len() > 0 ==> lrc_text(lines.push(l)) == (if lrc_text(lines).len() == 0 {
            Seq::<char>::empty()
        } else {
            lrc_text(lines) + seq!['\n']
        }) + lrc_stamp_text(l.words[0].start_time) + (if l.is_bg {
            seq!['('] + words_text(l.words) + seq![')']
        } else {
            words_text(l.words)
        }),
{
    let s = lines.push(l);
    assert(s.drop_last() =~= lines);
    assert(s.last() == l);
    if l.words.len() > 0 {
        let e = lrc_entries(lines);
        lemma_lrc_entries_nonempty(lines);
        lemma_join_lines_empty(e);
        let e2 = e.push(lrc_entry(l));
        assert(e2.drop_last() =~= e);
        if e.len() == 0 {
            assert(e2.len() == 1);
            assert(Seq::<char>::empty() + lrc_entry(l) =~= lrc_entry(l));
        }
        let t = words_text(l.words);
        let st = lrc_stamp_text(l.words[0].start_time);
        if l.is_bg {
            assert(st + (seq!['('] + t + seq![')']) =~= st + seq!['('] + t + seq![')']);
        }
        if e.len() > 0 {
            assert(join_lines(e2) == join_lines(e) + seq!['\n'] + lrc_entry(l));
        }
    }
}

/// Convert lyrics to LRC format string.
pub fn stringify_lrc(lines: &[LyricLineOwned]) -> (r: String)
    ensures
        r@ == lrc_text(lines_view(lines@)),
{
    let ghost lv = lines_view(lines@);
    let mut result = String::new();
    let mut count: usize = 0;
    let mut i: usize = 0;
    while i < lines.len()
        invariant
            i <= lines.len(),
            lv == lines_view(lines@),
            count == lrc_entries(lv.take(i as int)).len(),
            count <= i,
            result@ == join_lines(lrc_entries(lv.take(i as int))),
        decreases lines.len() - i,
    {
        let line = &lines[i];
        assert(lv[i as int] == line@);
        assert(lv.take(i + 1).drop_last() =~= lv.take(i as int));
        if line.words.len() > 0 {
            let ghost before = result@;
            proof {
                lemma_lrc_entries_len(lv.take(i as int));
            }
            if count > 0 {
                push_char(&mut result, '\n');
            }
            let ghost mid = result@;
            assert(line@.words[0] == line.words@[0]@);
            write_timestamp(&mut result, line.words[0].start_time);
            let t = words_text_exec(&line.words);
            if line.is_bg {
                push_char(&mut result, '(');
                push_chars(&mut result, &t);
                push_char(&mut result, ')');
            } else {
                push_chars(&mut result, &t);
            }
            assert(result@ =~= mid + lrc_entry(line@));
            proof {
                let e = lrc_entries(lv.take(i + 1));
                assert(e == lrc_entries(lv.take(i as int)).push(lrc_entry(line@)));
                assert(e.drop_last() =~= lrc_entries(lv.take(i as int)));
                if count == 0 {
                    assert(result@ =~= join_lines(e));
                } else {
                    assert(result@ =~= join_lines(e));
                }
            }
            count += 1;
        }
        i += 1;
    }
    assert(lv.take(lines.len() as int) =~= lv);
    result
}

} // verus!
