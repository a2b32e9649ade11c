//! Lyricify Syllable (LYS) format.
//!
//! Format: `[property]word(start_time,duration)word(start_time,duration)...`
//! Property values: 0, 1, 3, 4 and 9 mark normal lines, 2 and 5 duet lines,
//! 6 and 7 background lines, 8 background duet lines.

use vstd::prelude::*;

use crate::lyrics::qrc::{parse_words, qrc_words};
use crate::lyrics::timed::{
    lemma_lines_view_push, lemma_parsed_lines_step, parsed_lines, push_pair, word_dur, writable,
    well_timed,
};
use crate::lyrics::types::{
    lines_view, process_lyrics, processed, words_line, LyricLineOwned, SpecLine, SpecWord,
};
use crate::text::{
    chars_of, dec, digit_value, find, find_char, lemma_find, is_ascii_digit, is_digit, lines_chars,
    lines_of, push_char, push_chars, string_chars, subvec, trim, trim_chars, views,
};

verus! {

/// The `[d]` property marker at the start of `s`: the characters consumed and
/// the background and duet flags of digit `d`.
pub open spec fn lys_property(s: Seq<char>) -> Option<(int, bool, bool)> {
    if s.len() > 0 && s[0] == '[' {
        match find(s, ']') {
            Some(e) => if e == 2 && is_digit(s[1]) {
                let p = digit_value(s[1]);
                Some((3, p == 6 || p == 7 || p == 8, p == 2 || p == 5 || p == 8))
            } else {
                None
            },
            None => None,
        }
    } else {
        None
    }
}

/// A LYS line: after trimming, a property marker followed by at least one word.
pub open spec fn lys_line(line: Seq<char>) -> Option<SpecLine> {
    let t = trim(line);
    if t.len() == 0 {
        None
    } else {
        match lys_property(t) {
            Some((k, bg, duet)) => {
                let ws = qrc_words(t.skip(k));
                if ws.len() == 0 {
                    None
                } else {
                    Some(words_line(ws, bg, duet))
                }
            },
            None => None,
        }
    }
}

/// What `parse_lys` returns for the text `src`.
pub open spec fn spec_parse_lys(src: Seq<char>) -> Seq<SpecLine> {
    processed(parsed_lines(lines_of(src), |l: Seq<char>| lys_line(l)))
}

fn property_chars(s: &Vec<char>) -> (r: Option<(usize, bool, bool)>)
    ensures
        match r {
            Some((k, bg, duet)) => lys_property(s@) == Some((k as int, bg, duet)) && k <= s.len(),
            None => lys_property(s@) is None,
        },
{
    if s.len() == 0 || s[0] != '[' {
        return None;
    }
    let f = find_char(s, ']');
    proof {
        lemma_find(s@, ']');
    }
    match f {
        Some(e) => {
            if e != 2 || !is_ascii_digit(s[1]) {
                return None;
            }
            let p = s[1] as u32 - '0' as u32;
            Some((3, p == 6 || p == 7 || p == 8, p == 2 || p == 5 || p == 8))
        },
        None => None,
    }
}

/// Parse property marker: `[digit]`; returns the bytes consumed (three) and
/// the background and duet flags.
pub fn parse_property(src: &str) -> (r: Option<(usize, bool, bool)>)
    ensures
        match lys_property(src@) {
            Some((k, bg, duet)) => r == Some((k as usize, bg, duet)),
            None => r is None,
        },
{
    let s = chars_of(src);
    property_chars(&s)
}

/// Parse a single LYS line.
fn parse_line(line: &Vec<char>) -> (r: Option<LyricLineOwned>)
    ensures
        match r {
            Some(l) => lys_line(line@) == Some(l@),
            None => lys_line(line@) is None,
        },
{
    let t = trim_chars(line);
    if t.len() == 0 {
        return None;
    }
    match property_chars(&t) {
        Some((k, bg, duet)) => {
            let body = subvec(&t, k, t.len());
            assert(body@ =~= t@.skip(k as int));
            let words = parse_words(&body);
            if words.len() == 0 {
                return None;
            }
            Some(LyricLineOwned::from_words(words, bg, duet))
        },
        None => None,
    }
}

/// Parse LYS content into lyric lines.
pub fn parse_lys(src: &str) -> (r: Vec<LyricLineOwned>)
    ensures
        lines_view(r@) == spec_parse_lys(src@),
{
    let s = chars_of(src);
    let ls = lines_chars(&s);
    let ghost f = |l: Seq<char>| lys_line(l);
    let ghost lv = views(ls@);
    let mut result: Vec<LyricLineOwned> = Vec::new();
    let mut i: usize = 0;
    while i < ls.len()
        invariant
            i <= ls.len(),
            lv == views(ls@),
            lv == lines_of(s@),
            f == (|l: Seq<char>| lys_line(l)),
            lines_view(result@) == parsed_lines(lv.take(i as int), f),
        decreases ls.len() - i,
    {
        proof {
            lemma_parsed_lines_step(lv, f, i as int);
            assert(lv[i as int] == ls@[i as int]@);
        }
        match parse_line(&ls[i]) {
            Some(l) => {
                proof {
                    lemma_lines_view_push(result@, l);
                }
                result.push(l);
            },
            None => {},
        }
        i += 1;
    }
    assert(lv.take(ls.len() as int) =~= lv);
    process_lyrics(&mut result);
    result
}

pub open spec fn lys_word_text(w: SpecWord) -> Seq<char> {
    w.word + seq!['('] + dec(w.start_time as nat) + seq![','] + dec(word_dur(w) as nat) + seq![')']
}

pub open spec fn lys_words_text(ws: Seq<SpecWord>) -> Seq<char>
    decreases ws.len(),
{
    if ws.len() == 0 {
        Seq::empty()
    } else {
        lys_words_text(ws.drop_last()) + lys_word_text(ws.last())
    }
}

/// The property marker written for a line's flags.
pub open spec fn lys_marker(is_bg: bool, is_duet: bool) -> char {
    if is_bg {
        if is_duet { '8' } else { '6' }
    } else {
        if is_duet { '2' } else { '0' }
    }
}

pub open spec fn lys_line_text(l: SpecLine) -> Seq<char> {
    if l.words.len() == 0 {
        Seq::empty()
    } else {
        seq!['[', lys_marker(l.is_bg, l.is_duet), ']'] + lys_words_text(l.words) + seq!['\n']
    }
}

/// The LYS text of `lines`.
pub open spec fn lys_text(lines: Seq<SpecLine>) -> Seq<char>
    decreases lines.len(),
{
    if lines.len() == 0 {
        Seq::empty()
    } else {
        lys_text(lines.drop_last()) + lys_line_text(lines.last())
    }
}

/// The LYS writer puts each line with words after the ones before it: its
/// property marker in brackets, then every word in order as its text followed
/// by `(start,duration)`, then a newline; a line without words writes nothing.
pub proof fn lemma_lys_writes_every_word(lines: Seq<SpecLine>, l: SpecLine, ws: Seq<SpecWord>, w: SpecWord)
    ensures
        lys_text(lines.push(l)) == lys_text(lines) + (if l.words.len() == 0 {
            Seq::<char>::empty()
        } else {
            seq!['[', lys_marker(l.is_bg, l.is_duet), ']'] + lys_words_text(l.words) + seq!['\n']
        }),
        lys_words_text(Seq::<SpecWord>::empty()) == Seq::<char>::empty(),
        lys_words_text(ws.push(w)) == lys_words_text(ws) + w.word + seq!['('] + dec(w.start_time as nat) + seq![',']
            + dec(word_dur(w) as nat) + seq![')'],
{
    assert(lines.push(l).drop_last() =~= lines);
    assert(ws.push(w).drop_last() =~= ws);
    let t = lys_words_text(ws);
    assert(t + lys_word_text(w) =~= t + w.word + seq!['('] + dec(w.start_time as nat) + seq![','] + dec(
        word_dur(w) as nat,
    ) + seq![')']);
}

/// Convert lyrics to LYS format string.
pub fn stringify_lys(lines: &[LyricLineOwned]) -> (r: String)
    requires
        forall|i: int| 0 <= i < lines@.len() ==> well_timed((#[trigger] lines@[i])@.words),
    ensures
        r@ == lys_text(lines_view(lines@)),
{
    let ghost lv = lines_view(lines@);
    let mut result = String::new();
    let mut i: usize = 0;
    while i < lines.len()
        invariant
            i <= lines.len(),
            lv == lines_view(lines@),
            forall|i: int| 0 <= i < lines@.len() ==> well_timed((#[trigger] lines@[i])@.words),
            result@ == lys_text(lv.take(i as int)),
        decreases lines.len() - i,
    {
        let line = &lines[i];
        assert(lv[i as int] == line@);
        assert(lv.take(i + 1).drop_last() =~= lv.take(i as int));
        let ghost before = result@;
        if line.words.len() > 0 {
            let m = if line.is_bg {
                if line.is_duet { '8' } else { '6' }
            } else {
                if line.is_duet { '2' } else { '0' }
            };
            push_char(&mut result, '[');
            push_char(&mut result, m);
            push_char(&mut result, ']');
            let ghost mid = result@;
            let mut j: usize = 0;
            while j < line.words.len()
                invariant
                    j <= line.words.len(),
                    line@ == lv[i as int],
                    well_timed(line@.words),
                    result@ == mid + lys_words_text(line@.words.take(j as int)),
                decreases line.words.len() - j,
            {
                let w = &line.words[j];
                assert(line@.words[j as int] == w@);
                assert(line@.words.take(j + 1).drop_last() =~= line@.words.take(j as int));
                let ghost b = result@;
                let wc = string_chars(&w.word);
                push_chars(&mut result, &wc);
                push_pair(&mut result, '(', w.start_time, w.end_time - w.start_time);
                push_char(&mut result, ')');
                assert(result@ =~= b + lys_word_text(w@));
                j += 1;
            }
            assert(line@.words.take(line.words.len() as int) =~= line@.words);
            push_char(&mut result, '\n');
            assert(result@ =~= before + lys_line_text(line@));
        } else {
            assert(result@ =~= before + lys_line_text(line@));
        }
        i += 1;
    }
    assert(lv.take(lines.len() as int) =~= lv);
    result
}

} // verus!
