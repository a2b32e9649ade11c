//! CJK classification used when shaping lyric text, and the split of CJK
//! text into timed one-character words.

use vstd::prelude::*;

use crate::engine::word_splitter::{SpecSpan, WordSpan};
use crate::text::{chars_of, is_whitespace, is_ws, push_char};

verus! {

/// CJK Unified Ideographs, Extensions A and B, Hiragana, Katakana and Hangul syllables.
pub open spec fn cjk(c: char) -> bool {
    ('\u{4E00}' <= c && c <= '\u{9FFF}') || ('\u{3400}' <= c && c <= '\u{4DBF}') || ('\u{20000}' <= c && c
        <= '\u{2A6DF}') || ('\u{3040}' <= c && c <= '\u{309F}') || ('\u{30A0}' <= c && c <= '\u{30FF}') || (
    '\u{AC00}' <= c && c <= '\u{D7AF}')
}

/// Whether the character is CJK.
pub fn is_cjk_char(c: char) -> (r: bool)
    ensures
        r == cjk(c),
{
    ('\u{4E00}' <= c && c <= '\u{9FFF}') || ('\u{3400}' <= c && c <= '\u{4DBF}') || ('\u{20000}' <= c && c
        <= '\u{2A6DF}') || ('\u{3040}' <= c && c <= '\u{309F}') || ('\u{30A0}' <= c && c <= '\u{30FF}') || (
    '\u{AC00}' <= c && c <= '\u{D7AF}')
}

pub open spec fn count_cjk(s: Seq<char>) -> nat
    decreases s.len(),
{
    if s.len() == 0 {
        0
    } else {
        count_cjk(s.drop_last()) + if cjk(s.last()) { 1nat } else { 0nat }
    }
}

pub open spec fn count_non_ws(s: Seq<char>) -> nat
    decreases s.len(),
{
    if s.len() == 0 {
        0
    } else {
        count_non_ws(s.drop_last()) + if !is_ws(s.last()) { 1nat } else { 0nat }
    }
}

/// Whether the text is mostly CJK: more than half of its non-whitespace
/// characters are CJK.
pub open spec fn mostly_cjk(s: Seq<char>) -> bool {
    count_non_ws(s) > 0 && 2 * count_cjk(s) > count_non_ws(s)
}

/// Whether more than half of the text's non-whitespace characters are CJK.
pub fn is_cjk_text(text: &str) -> (r: bool)
    ensures
        r == mostly_cjk(text@),
{
    let v = chars_of(text);
    let mut cjk_count: usize = 0;
    let mut total: usize = 0;
    let mut i: usize = 0;
    while i < v.len()
        invariant
            i <= v.len(),
            v@ == text@,
            cjk_count == count_cjk(v@.take(i as int)),
            total == count_non_ws(v@.take(i as int)),
            cjk_count <= i,
            total <= i,
        decreases v.len() - i,
    {
        assert(v@.take(i + 1).drop_last() =~= v@.take(i as int));
        if is_cjk_char(v[i]) {
            cjk_count += 1;
        }
        if !is_whitespace(v[i]) {
            total += 1;
        }
        i += 1;
    }
    assert(v@.take(v.len() as int) =~= v@);
    total > 0 && cjk_count as u128 * 2 > total as u128
}

/// The time span of `start..end` (zero when `end` comes first).
pub open spec fn span_ms(start: u64, end: u64) -> int {
    if end >= start { end - start } else { 0 }
}

/// The `i`-th of the one-character words of `text`, spread over
/// `start..end`: each character takes the span divided by the number of
/// characters (rounded down), and the last one ends at `end`.
pub open spec fn cjk_char_word(text: Seq<char>, start: u64, end: u64, i: int) -> SpecSpan {
    let n = text.len() as int;
    let per = span_ms(start, end) / n;
    let s = start + i * per;
    SpecSpan {
        text: seq![text[i]],
        start_ms: s as u64,
        end_ms: if i == n - 1 { end } else { (s + per) as u64 },
        roman_word: None,
        emphasize: false,
        is_last_word: i == n - 1,
    }
}

proof fn lemma_share_bound(i: int, n: int, d: int)
    requires
        0 <= i < n,
        0 <= d,
    ensures
        0 <= i * (d / n),
        (i + 1) * (d / n) <= d,
        i * (d / n) + d / n <= d,
{
    assert(0 <= d / n) by (nonlinear_arith)
        requires
            0 <= d,
            0 < n,
    ;
    assert(0 <= i * (d / n)) by (nonlinear_arith)
        requires
            0 <= i,
            0 <= d / n,
    ;
    assert(n * (d / n) <= d) by (nonlinear_arith)
        requires
            0 <= d,
            0 < n,
    ;
    assert((i + 1) * (d / n) <= n * (d / n)) by (nonlinear_arith)
        requires
            i + 1 <= n,
            0 <= d / n,
    ;
    assert((i + 1) * (d / n) == i * (d / n) + d / n) by (nonlinear_arith);
}

/// The one-character words tile the span: the first starts at `start`, each
/// ends where the next starts, and the last ends at `end`.
pub proof fn law_cjk_words_tile(text: Seq<char>, start: u64, end: u64, i: int)
    requires
        0 <= i < text.len(),
        start <= end,
    ensures
        i == 0 ==> cjk_char_word(text, start, end, i).start_ms == start,
        i + 1 < text.len() ==> cjk_char_word(text, start, end, i).end_ms == cjk_char_word(text, start, end, i + 1).start_ms,
        i == text.len() - 1 ==> cjk_char_word(text, start, end, i).end_ms == end,
        start <= cjk_char_word(text, start, end, i).start_ms <= end,
{
    let n = text.len() as int;
    let d = span_ms(start, end);
    lemma_share_bound(i, n, d);
    assert((i + 1) * (d / n) == i * (d / n) + d / n) by (nonlinear_arith);
    if i + 1 < n {
        lemma_share_bound(i + 1, n, d);
    }
}

/// Splits the text into one word per character, with the line's span
/// shared evenly between them (see [`cjk_char_word`]).
pub fn split_cjk_to_words(text: &str, start_ms: u64, end_ms: u64) -> (r: Vec<WordSpan>)
    ensures
        r@.len() == text@.len(),
        forall|i: int| 0 <= i < r@.len() ==> (#[trigger] r@[i])@ == cjk_char_word(text@, start_ms, end_ms, i),
{
    let chars = chars_of(text);
    let n = chars.len();
    let mut out: Vec<WordSpan> = Vec::new();
    if n == 0 {
        return out;
    }
    let duration: u64 = if end_ms >= start_ms { end_ms - start_ms } else { 0 };
    let per: u64 = duration / (n as u64);
    let mut i: usize = 0;
    while i < n
        invariant
            i <= n,
            n == chars@.len(),
            chars@ == text@,
            n > 0,
            duration == span_ms(start_ms, end_ms),
            per == span_ms(start_ms, end_ms) / (n as int),
            out@.len() == i,
            forall|k: int| 0 <= k < i ==> (#[trigger] out@[k])@ == cjk_char_word(text@, start_ms, end_ms, k),
        decreases n - i,
    {
        proof {
            lemma_share_bound(i as int, n as int, duration as int);
            assert(start_ms + duration <= u64::MAX);
        }
        let off: u64 = (i as u64) * per;
        let start: u64 = start_ms + off;
        let end: u64 = if i == n - 1 { end_ms } else { start + per };
        let mut t = String::new();
        push_char(&mut t, chars[i]);
        proof {
            assert(t@ =~= seq![text@[i as int]]);
        }
        out.push(WordSpan {
            text: t,
            start_ms: start,
            end_ms: end,
            roman_word: None,
            emphasize: false,
            is_last_word: i == n - 1,
        });
        i += 1;
    }
    out
}

} // verus!
