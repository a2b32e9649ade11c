//! NetEase Cloud Music YRC format.
//!
//! Format: `[start,duration](word_start,word_duration,0)word(word_start,word_duration,0)word...`

use vstd::prelude::*;

use crate::lyrics::timed::{
    lemma_lines_view_push, lemma_parsed_lines_step, lemma_timed_group_bounds,
    lemma_words_view_push, parsed_lines, push_pair, timed_group, timed_group_exec, total_duration,
    sum_durs, word_dur, writable, well_timed,
};
use crate::lyrics::types::{
    lines_view, plain_word, process_lyrics, processed, words_line, words_view, LyricLineOwned,
    LyricWordOwned, SpecLine, SpecWord,
};
use crate::text::{
    chars_of, dec, find, find_char, lemma_find, lines_chars, lines_of, push_char, push_chars,
    string_chars, string_of, subvec, trim, trim_chars, utf8_len, utf8_prefix_len, views, wadd,
    wrapping_add_u64, sat_usize,
};

verus! {

/// Length of the word text at the start of `s`: up to the next `(` or the end.
pub open spec fn text_len(s: Seq<char>) -> int {
    match find(s, '(') {
        Some(j) => j,
        None => s.len() as int,
    }
}

/// The timed words of a YRC line body. Characters that do not start a
/// `(start,duration,0)` marker are skipped one at a time; each marker is
/// followed by its word text, which runs to the next `(`.
pub open spec fn yrc_words(s: Seq<char>) -> Seq<SpecWord>
    decreases s.len(),
{
    if s.len() == 0 {
        Seq::empty()
    } else {
        match timed_group(s, '(', ')', 3) {
            Some((k, st, d)) => {
                proof {
                    lemma_timed_group_bounds(s, '(', ')', 3);
                    lemma_find(s.skip(k), '(');
                }
                let rest = s.skip(k);
                let w = text_len(rest);
                seq![plain_word(st, wadd(st, d), rest.take(w))] + yrc_words(rest.skip(w))
            },
            None => yrc_words(s.drop_first()),
        }
    }
}

/// A YRC line: after trimming, a `[start,duration]` header followed by at least one timed word.
pub open spec fn yrc_line(line: Seq<char>) -> Option<SpecLine> {
    let t = trim(line);
    if t.len() == 0 {
        None
    } else {
        match timed_group(t, '[', ']', 2) {
            Some((k, a, b)) => {
                let ws = yrc_words(t.skip(k));
                if ws.len() == 0 {
                    None
                } else {
                    Some(words_line(ws, false, false))
                }
            },
            None => None,
        }
    }
}

/// Stray text is skipped: a character that does not start a
/// `(start,duration,0)` marker contributes nothing, and a line body without
/// any `(` holds no word.
pub proof fn lemma_yrc_skips_stray_text(s: Seq<char>)
    ensures
        s.len() > 0 && timed_group(s, '(', ')', 3) is None ==> yrc_words(s) == yrc_words(s.drop_first()),
        !s.contains('(') ==> yrc_words(s).len() == 0,
    decreases s.len(),
{
    if s.len() > 0 {
        if !s.contains('(') {
            assert(s[0] != '(');
            assert(timed_group(s, '(', ')', 3) is None);
            assert forall|i: int| 0 <= i < s.drop_first().len() implies s.drop_first()[i] != '(' by {
                assert(s.drop_first()[i] == s[i + 1]);
            }
            lemma_yrc_skips_stray_text(s.drop_first());
        }
    }
}

/// What `parse_yrc` returns for the text `src`.
pub open spec fn spec_parse_yrc(src: Seq<char>) -> Seq<SpecLine> {
    processed(parsed_lines(lines_of(src), |l: Seq<char>| yrc_line(l)))
}

/// Parse line timestamp: `[start_time,duration]`; returns the bytes consumed
/// and the two numbers.
pub fn parse_line_time(src: &str) -> (r: Option<(usize, u64, u64)>)
    ensures
        match timed_group(src@, '[', ']', 2) {
            Some((k, a, b)) => r == Some((sat_usize(utf8_len(src@.take(k))), a, b)),
            None => r is None,
        },
{
    let s = chars_of(src);
    match timed_group_exec(&s, '[', ']', 2) {
        Some((k, a, b)) => {
            proof {
                lemma_timed_group_bounds(s@, '[', ']', 2);
            }
            Some((utf8_prefix_len(&s, k), a, b))
        },
        None => None,
    }
}

/// Parse word timestamp: `(start_time,duration,0)`; returns the bytes consumed
/// and the start and duration.
pub fn parse_word_time(src: &str) -> (r: Option<(usize, u64, u64)>)
    ensures
        match timed_group(src@, '(', ')', 3) {
            Some((k, a, b)) => r == Some((sat_usize(utf8_len(src@.take(k))), a, b)),
            None => r is None,
        },
{
    let s = chars_of(src);
    match timed_group_exec(&s, '(', ')', 3) {
        Some((k, a, b)) => {
            proof {
                lemma_timed_group_bounds(s@, '(', ')', 3);
            }
            Some((utf8_prefix_len(&s, k), a, b))
        },
        None => None,
    }
}

fn parse_words(s: &Vec<char>) -> (r: Vec<LyricWordOwned>)
    ensures
        words_view(r@) == yrc_words(s@),
{
    let mut words: Vec<LyricWordOwned> = Vec::new();
    let mut pos: usize = 0;
    assert(s@.skip(0) =~= s@);
    while pos < s.len()
        invariant
            pos <= s.len(),
            words_view(words@) + yrc_words(s@.skip(pos as int)) == yrc_words(s@),
        decreases s.len() - pos,
    {
        let rest = subvec(s, pos, s.len());
        assert(rest@ =~= s@.skip(pos as int));
        match timed_group_exec(&rest, '(', ')', 3) {
            Some((k, st, d)) => {
                proof {
                    lemma_timed_group_bounds(rest@, '(', ')', 3);
                }
                let after = subvec(&rest, k, rest.len());
                assert(after@ =~= rest@.skip(k as int));
                let wl = match find_char(&after, '(') {
                    Some(j) => j,
                    None => after.len(),
                };
                proof {
                    lemma_find(after@, '(');
                }
                let text = subvec(&after, 0, wl);
                let w = LyricWordOwned::plain(st, wrapping_add_u64(st, d), string_of(&text));
                proof {
                    lemma_words_view_push(words@, w);
                    assert(text@ =~= after@.take(wl as int));
                    assert(after@.skip(wl as int) =~= s@.skip(pos + k + wl));
                    assert(yrc_words(rest@) == seq![w@] + yrc_words(s@.skip(pos + k + wl)));
                }
                words.push(w);
                assert(words_view(words@) + yrc_words(s@.skip(pos + k + wl)) =~= yrc_words(s@));
                pos = pos + k + wl;
            },
            None => {
                assert(rest@.drop_first() =~= s@.skip(pos + 1));
                pos = pos + 1;
            },
        }
    }
    assert(s@.skip(pos as int) =~= Seq::<char>::empty());
    assert(words_view(words@) + Seq::<SpecWord>::empty() =~= words_view(words@));
    words
}

/// Parse a single YRC line.
fn parse_line(line: &Vec<char>) -> (r: Option<LyricLineOwned>)
    ensures
        match r {
            Some(l) => yrc_line(line@) == Some(l@),
            None => yrc_line(line@) is None,
        },
{
    let t = trim_chars(line);
    if t.len() == 0 {
        return None;
    }
    match timed_group_exec(&t, '[', ']', 2) {
        Some((k, _, _)) => {
            proof {
                lemma_timed_group_bounds(t@, '[', ']', 2);
            }
            let body = subvec(&t, k, t.len());
            assert(body@ =~= t@.skip(k as int));
            let words = parse_words(&body);
            if words.len() == 0 {
                return None;
            }
            Some(LyricLineOwned::from_words(words, false, false))
        },
        None => None,
    }
}

/// Parse YRC content into lyric lines.
pub fn parse_yrc(src: &str) -> (r: Vec<LyricLineOwned>)
    ensures
        lines_view(r@) == spec_parse_yrc(src@),
{
    let s = chars_of(src);
    let ls = lines_chars(&s);
    let ghost f = |l: Seq<char>| yrc_line(l);
    let ghost lv = views(ls@);
    let mut result: Vec<LyricLineOwned> = Vec::new();
    let mut i: usize = 0;
    while i < ls.len()
        invariant
            i <= ls.len(),
            lv == views(ls@),
            lv == lines_of(s@),
            f == (|l: Seq<char>| yrc_line(l)),
            lines_view(result@) == parsed_lines(lv.take(i as int), f),
        decreases ls.len() - i,
    {
        proof {
            lemma_parsed_lines_step(lv, f, i as int);
            assert(lv[i as int] == ls@[i as int]@);
        }
        match parse_line(&ls[i]) {
            Some(l) => {
                proof {
                    lemma_lines_view_push(result@, l);
                }
                result.push(l);
            },
            None => {},
        }
        i += 1;
    }
    assert(lv.take(ls.len() as int) =~= lv);
    process_lyrics(&mut result);
    result
}

/// `(` and `)` in a word become their full-width forms, as YRC requires.
pub open spec fn yrc_escape(t: Seq<char>) -> Seq<char> {
    t.map_values(|c: char| if c == '(' { '\u{FF08}' } else if c == ')' { '\u{FF09}' } else { c })
}

pub open spec fn yrc_word_text(w: SpecWord) -> Seq<char> {
    seq!['('] + dec(w.start_time as nat) + seq![','] + dec(word_dur(w) as nat) + seq![',', '0', ')']
        + yrc_escape(w.word)
}

pub open spec fn yrc_words_text(ws: Seq<SpecWord>) -> Seq<char>
    decreases ws.len(),
{
    if ws.len() == 0 {
        Seq::empty()
    } else {
        yrc_words_text(ws.drop_last()) + yrc_word_text(ws.last())
    }
}

pub open spec fn yrc_line_text(l: SpecLine) -> Seq<char> {
    if l.words.len() == 0 {
        Seq::empty()
    } else {
        seq!['['] + dec(l.words[0].start_time as nat) + seq![','] + dec(sum_durs(l.words) as nat)
            + seq![']'] + yrc_words_text(l.words) + seq!['\n']
    }
}

/// The YRC text of `lines`.
pub open spec fn yrc_text(lines: Seq<SpecLine>) -> Seq<char>
    decreases lines.len(),
{
    if lines.len() == 0 {
        Seq::empty()
    } else {
        yrc_text(lines.drop_last()) + yrc_line_text(lines.last())
    }
}

fn push_escaped(s: &mut String, w: &String)
    ensures
        final(s)@ == old(s)@ + yrc_escape(w@),
{
    let cs = string_chars(w);
    let ghost s0 = s@;
    let mut i: usize = 0;
    while i < cs.len()
        invariant
            i <= cs.len(),
            s@ == s0 + yrc_escape(cs@.take(i as int)),
        decreases cs.len() - i,
    {
        let c = cs[i];
        let e = if c == '(' { '\u{FF08}' } else if c == ')' { '\u{FF09}' } else { c };
        push_char(s, e);
        assert(yrc_escape(cs@.take(i + 1)) =~= yrc_escape(cs@.take(i as int)).push(e));
        i += 1;
    }
    assert(cs@.take(cs.len() as int) =~= cs@);
}

/// Convert lyrics to YRC format string.
/// The YRC writer puts each line with words after the ones before it: a
/// `[start,duration]` header (the first word's start, the sum of the words'
/// durations), then every word in order as `(start,duration,0)` and its text
/// (parentheses turned full-width), then a newline; a line without words
/// writes nothing.
pub proof fn lemma_yrc_writes_every_word(lines: Seq<SpecLine>, l: SpecLine, ws: Seq<SpecWord>, w: SpecWord)
    ensures
        yrc_text(lines.push(l)) == yrc_text(lines) + (if l.words.len() == 0 {
            Seq::<char>::empty()
        } else {
            seq!['['] + dec(l.words[0].start_time as nat) + seq![','] + dec(sum_durs(l.words) as nat) + seq![']']
                + yrc_words_text(l.words) + seq!['\n']
        }),
        yrc_words_text(Seq::<SpecWord>::empty()) == Seq::<char>::empty(),
        yrc_words_text(ws.push(w)) == yrc_words_text(ws) + seq!['('] + dec(w.start_time as nat) + seq![',']
            + dec(word_dur(w) as nat) + seq![',', '0', ')'] + w.word.map_values(
            |c: char| if c == '(' { '\u{FF08}' } else if c == ')' { '\u{FF09}' } else { c },
        ),
{
    assert(lines.push(l).drop_last() =~= lines);
    assert(ws.push(w).drop_last() =~= ws);
    let t = yrc_words_text(ws);
    let m = seq!['('] + dec(w.start_time as nat) + seq![','] + dec(word_dur(w) as nat) + seq![',', '0', ')'];
    assert(t + (m + yrc_escape(w.word)) =~= t + m + yrc_escape(w.word));
}

pub fn stringify_yrc(lines: &[LyricLineOwned]) -> (r: String)
    requires
        writable(lines_view(lines@)),
    ensures
        r@ == yrc_text(lines_view(lines@)),
{
    let ghost lv = lines_view(lines@);
    let mut result = String::new();
    let mut i: usize = 0;
    while i < lines.len()
        invariant
            i <= lines.len(),
            lv == lines_view(lines@),
            writable(lv),
            result@ == yrc_text(lv.take(i as int)),
        decreases lines.len() - i,
    {
        let line = &lines[i];
        assert(lv[i as int] == line@);
        assert(lv.take(i + 1).drop_last() =~= lv.take(i as int));
        let ghost before = result@;
        if line.words.len() > 0 {
            assert(well_timed(lv[i as int].words));
            let total = total_duration(&line.words);
            push_pair(&mut result, '[', line.words[0].start_time, total);
            push_char(&mut result, ']');
            let ghost mid = result@;
            let mut j: usize = 0;
            while j < line.words.len()
                invariant
                    j <= line.words.len(),
                    line@ == lv[i as int],
                    well_timed(line@.words),
                    result@ == mid + yrc_words_text(line@.words.take(j as int)),
                decreases line.words.len() - j,
            {
                let w = &line.words[j];
                assert(line@.words[j as int] == w@);
                assert(line@.words.take(j + 1).drop_last() =~= line@.words.take(j as int));
                let ghost b = result@;
                push_pair(&mut result, '(', w.start_time, w.end_time - w.start_time);
                push_char(&mut result, ',');
                push_char(&mut result, '0');
                push_char(&mut result, ')');
                push_escaped(&mut result, &w.word);
                assert(result@ =~= b + yrc_word_text(w@));
                j += 1;
            }
            assert(line@.words.take(line.words.len() as int) =~= line@.words);
            push_char(&mut result, '\n');
            assert(result@ =~= before + yrc_line_text(line@));
        } else {
            assert(result@ =~= before + yrc_line_text(line@));
        }
        i += 1;
    }
    assert(lv.take(lines.len() as int) =~= lv);
    result
}

} // verus!
