//! QQ Music QRC format.
//!
//! Format: `[start,duration]word(word_start,word_duration)word(word_start,word_duration)...`;
//! unlike YRC, each word comes before its timestamp.

use vstd::prelude::*;

use crate::lyrics::timed::{
    lemma_lines_view_push, lemma_parsed_lines_step, lemma_timed_group_bounds,
    lemma_words_view_push, parsed_lines, push_pair, timed_group, timed_group_exec, total_duration,
    sum_durs, word_dur, writable, well_timed,
};
use crate::lyrics::types::{
    lines_view, plain_word, process_lyrics, processed, words_line, words_view, LyricLineOwned,
    LyricWordOwned, SpecLine, SpecWord,
};
use crate::text::{
    chars_of, dec, find, find_char, lemma_find, lines_chars, lines_of, push_char, push_chars,
    string_chars, string_of, subvec, trim, trim_chars, utf8_len, utf8_prefix_len, views, wadd,
    wrapping_add_u64, sat_usize,
};

verus! {

/// A word followed by its `(start,duration)` marker at the start of `s`: the
/// characters consumed and the word. The text runs up to the first `(`.
pub open spec fn qrc_word(s: Seq<char>) -> Option<(int, SpecWord)> {
    match find(s, '(') {
        Some(p) => match timed_group(s.skip(p), '(', ')', 2) {
            Some((k, st, d)) => Some((p + k, plain_word(st, wadd(st, d), s.take(p)))),
            None => None,
        },
        None => None,
    }
}

pub proof fn lemma_qrc_word_bounds(s: Seq<char>)
    ensures
        qrc_word(s) matches Some((k, w)) ==> 2 <= k <= s.len(),
{
    lemma_find(s, '(');
    if let Some(p) = find(s, '(') {
        lemma_timed_group_bounds(s.skip(p), '(', ')', 2);
    }
}

/// The words of a QRC or LYS line body, parsed until the first piece that is
/// not a word with its marker.
pub open spec fn qrc_words(s: Seq<char>) -> Seq<SpecWord>
    decreases s.len(),
{
    if s.len() == 0 {
        Seq::empty()
    } else {
        match qrc_word(s) {
            Some((k, w)) => {
                proof {
                    lemma_qrc_word_bounds(s);
                }
                seq![w] + qrc_words(s.skip(k))
            },
            None => Seq::empty(),
        }
    }
}

/// A QRC line: after trimming, a `[start,duration]` header followed by at least one word.
pub open spec fn qrc_line(line: Seq<char>) -> Option<SpecLine> {
    let t = trim(line);
    if t.len() == 0 {
        None
    } else {
        match timed_group(t, '[', ']', 2) {
            Some((k, a, b)) => {
                let ws = qrc_words(t.skip(k));
                if ws.len() == 0 {
                    None
                } else {
                    Some(words_line(ws, false, false))
                }
            },
            None => None,
        }
    }
}

/// What `parse_qrc` returns for the text `src`.
pub open spec fn spec_parse_qrc(src: Seq<char>) -> Seq<SpecLine> {
    processed(parsed_lines(lines_of(src), |l: Seq<char>| qrc_line(l)))
}

/// Parse word timestamp: `(start_time,duration)`; returns the bytes consumed
/// and the start and duration.
pub fn parse_word_time(src: &str) -> (r: Option<(usize, u64, u64)>)
    ensures
        match timed_group(src@, '(', ')', 2) {
            Some((k, a, b)) => r == Some((sat_usize(utf8_len(src@.take(k))), a, b)),
            None => r is None,
        },
{
    let s = chars_of(src);
    match timed_group_exec(&s, '(', ')', 2) {
        Some((k, a, b)) => {
            proof {
                lemma_timed_group_bounds(s@, '(', ')', 2);
            }
            Some((utf8_prefix_len(&s, k), a, b))
        },
        None => None,
    }
}

pub fn parse_word_chars(s: &Vec<char>) -> (r: Option<(usize, LyricWordOwned)>)
    ensures
        match r {
            Some((k, w)) => qrc_word(s@) == Some((k as int, w@)),
            None => qrc_word(s@) is None,
        },
{
    let p = match find_char(s, '(') {
        Some(p) => p,
        None => return None,
    };
    proof {
        lemma_find(s@, '(');
    }
    let rest = subvec(s, p, s.len());
    assert(rest@ =~= s@.skip(p as int));
    match timed_group_exec(&rest, '(', ')', 2) {
        Some((k, st, d)) => {
            proof {
                lemma_timed_group_bounds(rest@, '(', ')', 2);
            }
            let text = subvec(s, 0, p);
            assert(text@ =~= s@.take(p as int));
            Some((p + k, LyricWordOwned::plain(st, wrapping_add_u64(st, d), string_of(&text))))
        },
        None => None,
    }
}

/// Parse a single word with its following timestamp; returns the bytes
/// consumed and the word.
pub fn parse_word(src: &str) -> (r: Option<(usize, LyricWordOwned)>)
    ensures
        match qrc_word(src@) {
            Some((k, w)) => r matches Some((n, x)) && n == sat_usize(utf8_len(src@.take(k))) && x@ == w,
            None => r is None,
        },
{
    let s = chars_of(src);
    match parse_word_chars(&s) {
        Some((k, w)) => {
            proof {
                lemma_qrc_word_bounds(s@);
            }
            Some((utf8_prefix_len(&s, k), w))
        },
        None => None,
    }
}

pub fn parse_words(s: &Vec<char>) -> (r: Vec<LyricWordOwned>)
    ensures
        words_view(r@) == qrc_words(s@),
{
    let mut words: Vec<LyricWordOwned> = Vec::new();
    let mut pos: usize = 0;
    assert(s@.skip(0) =~= s@);
    while pos < s.len()
        invariant
            pos <= s.len(),
            words_view(words@) + qrc_words(s@.skip(pos as int)) == qrc_words(s@),
        decreases s.len() - pos,
    {
        let rest = subvec(s, pos, s.len());
        assert(rest@ =~= s@.skip(pos as int));
        match parse_word_chars(&rest) {
            Some((k, w)) => {
                proof {
                    lemma_qrc_word_bounds(rest@);
                    lemma_words_view_push(words@, w);
                    assert(rest@.skip(k as int) =~= s@.skip(pos + k));
                }
                words.push(w);
                assert(words_view(words@) + qrc_words(s@.skip(pos + k)) =~= qrc_words(s@));
                pos = pos + k;
            },
            None => {
                assert(words_view(words@) + Seq::<SpecWord>::empty() =~= words_view(words@));
                return words;
            },
        }
    }
    assert(s@.skip(pos as int) =~= Seq::<char>::empty());
    assert(words_view(words@) + Seq::<SpecWord>::empty() =~= words_view(words@));
    words
}
/// Parse a single QRC line.
fn parse_line(line: &Vec<char>) -> (r: Option<LyricLineOwned>)
    ensures
        match r {
            Some(l) => qrc_line(line@) == Some(l@),
            None => qrc_line(line@) is None,
        },
{
    let t = trim_chars(line);
    if t.len() == 0 {
        return None;
    }
    match timed_group_exec(&t, '[', ']', 2) {
        Some((k, _, _)) => {
            proof {
                lemma_timed_group_bounds(t@, '[', ']', 2);
            }
            let body = subvec(&t, k, t.len());
            assert(body@ =~= t@.skip(k as int));
            let words = parse_words(&body);
            if words.len() == 0 {
                return None;
            }
            Some(LyricLineOwned::from_words(words, false, false))
        },
        None => None,
    }
}

/// Parse QRC content into lyric lines.
pub fn parse_qrc(src: &str) -> (r: Vec<LyricLineOwned>)
    ensures
        lines_view(r@) == spec_parse_qrc(src@),
{
    let s = chars_of(src);
    let ls = lines_chars(&s);
    let ghost f = |l: Seq<char>| qrc_line(l);
    let ghost lv = views(ls@);
    let mut result: Vec<LyricLineOwned> = Vec::new();
    let mut i: usize = 0;
    while i < ls.len()
        invariant
            i <= ls.len(),
            lv == views(ls@),
            lv == lines_of(s@),
            f == (|l: Seq<char>| qrc_line(l)),
            lines_view(result@) == parsed_lines(lv.take(i as int), f),
        decreases ls.len() - i,
    {
        proof {
            lemma_parsed_lines_step(lv, f, i as int);
            assert(lv[i as int] == ls@[i as int]@);
        }
        match parse_line(&ls[i]) {
            Some(l) => {
                proof {
                    lemma_lines_view_push(result@, l);
                }
                result.push(l);
            },
            None => {},
        }
        i += 1;
    }
    assert(lv.take(ls.len() as int) =~= lv);
    process_lyrics(&mut result);
    result
}

pub open spec fn qrc_word_text(w: SpecWord) -> Seq<char> {
    w.word + seq!['('] + dec(w.start_time as nat) + seq![','] + dec(word_dur(w) as nat) + seq![')']
}

pub open spec fn qrc_words_text(ws: Seq<SpecWord>) -> Seq<char>
    decreases ws.len(),
{
    if ws.len() == 0 {
        Seq::empty()
    } else {
        qrc_words_text(ws.drop_last()) + qrc_word_text(ws.last())
    }
}

pub open spec fn qrc_line_text(l: SpecLine) -> Seq<char> {
    if l.words.len() == 0 {
        Seq::empty()
    } else {
        seq!['['] + dec(l.words[0].start_time as nat) + seq![','] + dec(sum_durs(l.words) as nat)
            + seq![']'] + qrc_words_text(l.words) + seq!['\n']
    }
}

/// The QRC text of `lines`.
pub open spec fn qrc_text(lines: Seq<SpecLine>) -> Seq<char>
    decreases lines.len(),
{
    if lines.len() == 0 {
        Seq::empty()
    } else {
        qrc_text(lines.drop_last()) + qrc_line_text(lines.last())
    }
}

/// The QRC writer puts each line with words after the ones before it: a
/// `[start,duration]` header (the first word's start, the sum of the words'
/// durations), then every word in order as its text followed by
/// `(start,duration)`, then a newline; a line without words writes nothing.
pub proof fn lemma_qrc_writes_every_word(lines: Seq<SpecLine>, l: SpecLine, ws: Seq<SpecWord>, w: SpecWord)
    ensures
        qrc_text(lines.push(l)) == qrc_text(lines) + (if l.words.len() == 0 {
            Seq::<char>::empty()
        } else {
            seq!['['] + dec(l.words[0].start_time as nat) + seq![','] + dec(sum_durs(l.words) as nat) + seq![']']
                + qrc_words_text(l.words) + seq!['\n']
        }),
        qrc_words_text(Seq::<SpecWord>::empty()) == Seq::<char>::empty(),
        qrc_words_text(ws.push(w)) == qrc_words_text(ws) + w.word + seq!['('] + dec(w.start_time as nat) + seq![',']
            + dec(word_dur(w) as nat) + seq![')'],
{
    assert(lines.push(l).drop_last() =~= lines);
    assert(ws.push(w).drop_last() =~= ws);
    let t = qrc_words_text(ws);
    assert(t + qrc_word_text(w) =~= t + w.word + seq!['('] + dec(w.start_time as nat) + seq![','] + dec(
        word_dur(w) as nat,
    ) + seq![')']);
}

/// Convert lyrics to QRC format string.
pub fn stringify_qrc(lines: &[LyricLineOwned]) -> (r: String)
    requires
        writable(lines_view(lines@)),
    ensures
        r@ == qrc_text(lines_view(lines@)),
{
    let ghost lv = lines_view(lines@);
    let mut result = String::new();
    let mut i: usize = 0;
    while i < lines.len()
        invariant
            i <= lines.len(),
            lv == lines_view(lines@),
            writable(lv),
            result@ == qrc_text(lv.take(i as int)),
        decreases lines.len() - i,
    {
        let line = &lines[i];
        assert(lv[i as int] == line@);
        assert(lv.take(i + 1).drop_last() =~= lv.take(i as int));
        let ghost before = result@;
        if line.words.len() > 0 {
            assert(well_timed(lv[i as int].words));
            let total = total_duration(&line.words);
            push_pair(&mut result, '[', line.words[0].start_time, total);
            push_char(&mut result, ']');
            let ghost mid = result@;
            let mut j: usize = 0;
            while j < line.words.len()
                invariant
                    j <= line.words.len(),
                    line@ == lv[i as int],
                    well_timed(line@.words),
                    result@ == mid + qrc_words_text(line@.words.take(j as int)),
                decreases line.words.len() - j,
            {
                let w = &line.words[j];
                assert(line@.words[j as int] == w@);
                assert(line@.words.take(j + 1).drop_last() =~= line@.words.take(j as int));
                let ghost b = result@;
                let wc = string_chars(&w.word);
                push_chars(&mut result, &wc);
                push_pair(&mut result, '(', w.start_time, w.end_time - w.start_time);
                push_char(&mut result, ')');
                assert(result@ =~= b + qrc_word_text(w@));
                j += 1;
            }
            assert(line@.words.take(line.words.len() as int) =~= line@.words);
            push_char(&mut result, '\n');
            assert(result@ =~= before + qrc_line_text(line@));
        } else {
            assert(result@ =~= before + qrc_line_text(line@));
        }
        i += 1;
    }
    assert(lv.take(lines.len() as int) =~= lv);
    result
}

} // verus!
