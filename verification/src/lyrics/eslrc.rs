//! Foobar2000 ESLyric format.
//!
//! Standard LRC timestamps interleaved with words: `[mm:ss.xx]word[mm:ss.xx]word[mm:ss.xx]...`,
//! where each timestamp is the end of the preceding word and the start of the next.
//!
//! A `[` that does not open a timestamp makes the scan stop advancing; such
//! input is outside what the parser accepts (`eslrc_total`).

use vstd::prelude::*;

use crate::lyrics::lrc::{lrc_stamp_text, write_timestamp};
use crate::lyrics::timed::{lemma_lines_view_push, somes};
use crate::lyrics::types::{
    lines_view, plain_word, process_lyrics, processed, words_line, words_view, LyricLineOwned,
    LyricWordOwned, SpecLine, SpecWord,
};
use crate::text::{
    chars_of, contains_char, find, find_char, has_char, is_alphabetic, is_blank, lemma_find,
    lines_chars, lines_of, parse_u64, parse_u64_chars, push_char, push_chars, split2,
    split2_chars, string_chars, string_of, subvec, trim, trim_chars, unicode_alphabetic, views,
};

verus! {

/// An ESLyric timestamp `[m:s]` or `[m:s.f]` (`:` and `.` both separate) at the
/// start of `s`: the characters consumed and the time in milliseconds. Minutes
/// and seconds are `u64` numbers; a fraction of one, two or three digits is
/// tenths, hundredths or thousandths. The arithmetic wraps modulo 2^64.
pub open spec fn es_time(s: Seq<char>) -> Option<(int, u64)> {
    if s.len() > 0 && s[0] == '[' {
        match find(s, ']') {
            Some(e) => {
                let ts = s.subrange(1, e);
                if contains_char(ts, ':') && ts.len() > 0 && unicode_alphabetic(ts[0]) {
                    None
                } else {
                    let parts = split2(ts, ':', '.');
                    if parts.len() == 2 && parse_u64(parts[0]) is Some && parse_u64(parts[1]) is Some {
                        let m = parse_u64(parts[0])->0;
                        let sec = parse_u64(parts[1])->0;
                        Some((e + 1, m.wrapping_mul(60).wrapping_mul(1000).wrapping_add(sec.wrapping_mul(1000))))
                    } else if parts.len() == 3 && parse_u64(parts[0]) is Some && parse_u64(parts[1]) is Some
                        && parse_u64(parts[2]) is Some && 1 <= parts[2].len() <= 3 {
                        let m = parse_u64(parts[0])->0;
                        let sec = parse_u64(parts[1])->0;
                        let f = parse_u64(parts[2])->0;
                        let ms = if parts[2].len() == 1 {
                            f.wrapping_mul(100)
                        } else if parts[2].len() == 2 {
                            f.wrapping_mul(10)
                        } else {
                            f
                        };
                        Some((e + 1, m.wrapping_mul(60).wrapping_mul(1000).wrapping_add(sec.wrapping_mul(1000)).wrapping_add(ms)))
                    } else {
                        None
                    }
                }
            },
            None => None,
        }
    } else {
        None
    }
}

/// Where a timestamp starts `s`, the length of the bracketed text and the time.
pub open spec fn es_tag(s: Seq<char>) -> Option<(int, u64)> {
    if s.len() > 0 && s[0] == '[' {
        match find(s, ']') {
            Some(be) => match es_time(s.take(be + 1)) {
                Some((_, t)) => Some((be + 1, t)),
                None => None,
            },
            None => None,
        }
    } else {
        None
    }
}

/// Length of the word text at the start of `s`: up to the next `[`.
pub open spec fn es_word_len(s: Seq<char>) -> int {
    match find(s, '[') {
        Some(j) => j,
        None => s.len() as int,
    }
}

/// The scan of one ESLyric line from the current position: `cur` is the last
/// timestamp seen and `ws` the words so far. Nothing when the scan would stop
/// advancing.
pub open spec fn es_scan(s: Seq<char>, cur: Option<u64>, ws: Seq<SpecWord>) -> Option<Seq<SpecWord>>
    decreases s.len(),
{
    if s.len() == 0 {
        Some(ws)
    } else {
        match es_tag(s) {
            Some((k, t)) => {
                proof {
                    lemma_find(s, ']');
                }
                let ws2 = if cur is Some && ws.len() > 0 {
                    ws.update(ws.len() - 1, SpecWord { end_time: t, ..ws.last() })
                } else {
                    ws
                };
                es_scan(s.skip(k), Some(t), ws2)
            },
            None => {
                proof {
                    lemma_find(s, '[');
                }
                let we = es_word_len(s);
                if we == 0 {
                    None
                } else {
                    let ws2 = match cur {
                        Some(st) => ws.push(plain_word(st, 0, s.take(we))),
                        None => ws,
                    };
                    es_scan(s.skip(we), cur, ws2)
                }
            },
        }
    }
}

/// An ESLyric line: the words of its trimmed text, when there are any.
pub open spec fn es_line(line: Seq<char>) -> Option<SpecLine> {
    let t = trim(line);
    if t.len() == 0 {
        None
    } else {
        match es_scan(t, None, Seq::empty()) {
            Some(ws) => if ws.len() == 0 {
                None
            } else {
                Some(words_line(ws, false, false))
            },
            None => None,
        }
    }
}

/// Every non-blank line of `src` scans to its end.
pub open spec fn eslrc_total(src: Seq<char>) -> bool {
    forall|i: int|
        0 <= i < lines_of(src).len() ==> trim(#[trigger] lines_of(src)[i]).len() == 0
            || trim(trim(lines_of(src)[i])).len() == 0 || es_scan(trim(trim(lines_of(src)[i])), None, Seq::empty()) is Some
}

/// What a non-blank line contributes.
pub open spec fn es_entry(l: Seq<char>) -> Option<SpecLine> {
    if trim(l).len() == 0 {
        None
    } else {
        es_line(trim(l))
    }
}

/// What `parse_eslrc` returns for the text `src`.
pub open spec fn spec_parse_eslrc(src: Seq<char>) -> Seq<SpecLine> {
    processed(somes(lines_of(src).map_values(|l: Seq<char>| es_entry(l))))
}

fn es_time_exec(s: &Vec<char>) -> (r: Option<(usize, u64)>)
    ensures
        match r {
            Some((k, t)) => es_time(s@) == Some((k as int, t)),
            None => es_time(s@) is None,
        },
{
    if s.len() == 0 || s[0] != '[' {
        return None;
    }
    let e = match find_char(s, ']') {
        Some(e) => e,
        None => return None,
    };
    proof {
        lemma_find(s@, ']');
    }
    let ts = subvec(s, 1, e);
    if has_char(&ts, ':') && ts.len() > 0 && is_alphabetic(ts[0]) {
        return None;
    }
    let parts = split2_chars(&ts, ':', '.');
    let ghost pv = views(parts@);
    assert(pv.len() == parts@.len());
    if parts.len() == 2 {
        assert(pv[0] == parts@[0]@ && pv[1] == parts@[1]@);
        let m = match parse_u64_chars(&parts[0]) {
            Some(m) => m,
            None => return None,
        };
        let sec = match parse_u64_chars(&parts[1]) {
            Some(v) => v,
            None => return None,
        };
        Some((e + 1, m.wrapping_mul(60).wrapping_mul(1000).wrapping_add(sec.wrapping_mul(1000))))
    } else if parts.len() == 3 {
        assert(pv[0] == parts@[0]@ && pv[1] == parts@[1]@ && pv[2] == parts@[2]@);
        let m = match parse_u64_chars(&parts[0]) {
            Some(m) => m,
            None => return None,
        };
        let sec = match parse_u64_chars(&parts[1]) {
            Some(v) => v,
            None => return None,
        };
        let f = match parse_u64_chars(&parts[2]) {
            Some(v) => v,
            None => return None,
        };
        let n = parts[2].len();
        if n < 1 || n > 3 {
            return None;
        }
        let ms = if n == 1 {
            f.wrapping_mul(100)
        } else if n == 2 {
            f.wrapping_mul(10)
        } else {
            f
        };
        Some((e + 1, m.wrapping_mul(60).wrapping_mul(1000).wrapping_add(sec.wrapping_mul(1000)).wrapping_add(ms)))
    } else {
        None
    }
}

fn es_tag_exec(s: &Vec<char>) -> (r: Option<(usize, u64)>)
    ensures
        match r {
            Some((k, t)) => es_tag(s@) == Some((k as int, t)) && 1 <= k <= s.len(),
            None => es_tag(s@) is None,
        },
{
    if s.len() == 0 || s[0] != '[' {
        return None;
    }
    let be = match find_char(s, ']') {
        Some(be) => be,
        None => return None,
    };
    proof {
        lemma_find(s@, ']');
    }
    let tag = subvec(s, 0, be + 1);
    assert(tag@ =~= s@.take(be + 1));
    match es_time_exec(&tag) {
        Some((_, t)) => Some((be + 1, t)),
        None => None,
    }
}

/// Scans one trimmed line; nothing when the scan would stop advancing.
fn scan_line(s: &Vec<char>) -> (r: Option<Vec<LyricWordOwned>>)
    ensures
        match r {
            Some(ws) => es_scan(s@, None, Seq::empty()) == Some(words_view(ws@)),
            None => es_scan(s@, None, Seq::empty()) is None,
        },
{
    let mut words: Vec<LyricWordOwned> = Vec::new();
    let mut cur: Option<u64> = None;
    let mut pos: usize = 0;
    assert(s@.skip(0) =~= s@);
    assert(words_view(words@) =~= Seq::<SpecWord>::empty());
    while pos < s.len()
        invariant
            pos <= s.len(),
            es_scan(s@.skip(pos as int), cur, words_view(words@)) == es_scan(s@, None, Seq::empty()),
        decreases s.len() - pos,
    {
        let rest = subvec(s, pos, s.len());
        assert(rest@ =~= s@.skip(pos as int));
        match es_tag_exec(&rest) {
            Some((k, t)) => {
                let ghost wv = words_view(words@);
                if cur.is_some() && words.len() > 0 {
                    let ghost ws0 = words@;
                    let mut w = words.pop().unwrap();
                    w.end_time = t;
                    words.push(w);
                    assert(words_view(words@) =~= wv.update(wv.len() - 1, SpecWord { end_time: t, ..wv.last() }));
                }
                assert(rest@.skip(k as int) =~= s@.skip(pos + k));
                cur = Some(t);
                pos = pos + k;
            },
            None => {
                let we = match find_char(&rest, '[') {
                    Some(j) => j,
                    None => rest.len(),
                };
                proof {
                    lemma_find(rest@, '[');
                }
                if we == 0 {
                    return None;
                }
                let ghost wv = words_view(words@);
                match cur {
                    Some(st) => {
                        let text = subvec(&rest, 0, we);
                        let w = LyricWordOwned::plain(st, 0, string_of(&text));
                        assert(text@ =~= rest@.take(we as int));
                        words.push(w);
                        assert(words_view(words@) =~= wv.push(plain_word(st, 0, rest@.take(we as int))));
                    },
                    None => {},
                }
                assert(rest@.skip(we as int) =~= s@.skip(pos + we));
                pos = pos + we;
            },
        }
    }
    assert(s@.skip(pos as int) =~= Seq::<char>::empty());
    Some(words)
}

/// Parse a single ESLyric line; nothing for a blank line or one without words.
fn parse_line(src: &Vec<char>) -> (r: Option<LyricLineOwned>)
    requires
        trim(src@).len() == 0 || es_scan(trim(src@), None, Seq::empty()) is Some,
    ensures
        match r {
            Some(l) => es_line(src@) == Some(l@),
            None => es_line(src@) is None,
        },
{
    let t = trim_chars(src);
    if t.len() == 0 {
        return None;
    }
    match scan_line(&t) {
        Some(words) => {
            if words.len() == 0 {
                return None;
            }
            Some(LyricLineOwned::from_words(words, false, false))
        },
        None => None,
    }
}

/// Parse ESLyric content into lyric lines.
pub fn parse_eslrc(src: &str) -> (r: Vec<LyricLineOwned>)
    requires
        eslrc_total(src@),
    ensures
        lines_view(r@) == spec_parse_eslrc(src@),
{
    let s = chars_of(src);
    let ls = lines_chars(&s);
    let ghost lv = views(ls@);
    let ghost f = |l: Seq<char>| es_entry(l);
    let mut result: Vec<LyricLineOwned> = Vec::new();
    let mut i: usize = 0;
    while i < ls.len()
        invariant
            i <= ls.len(),
            lv == views(ls@),
            lv == lines_of(s@),
            s@ == src@,
            eslrc_total(src@),
            f == (|l: Seq<char>| es_entry(l)),
            lines_view(result@) == somes(lv.take(i as int).map_values(f)),
        decreases ls.len() - i,
    {
        assert(lv[i as int] == ls@[i as int]@);
        assert(lv.take(i + 1).map_values(f) =~= lv.take(i as int).map_values(f).push(f(lv[i as int])));
        assert(lv.take(i + 1).map_values(f).drop_last() =~= lv.take(i as int).map_values(f));
        let trimmed = trim_chars(&ls[i]);
        if trimmed.len() > 0 {
            match parse_line(&trimmed) {
                Some(l) => {
                    proof {
                        lemma_lines_view_push(result@, l);
                    }
                    result.push(l);
                },
                None => {},
            }
        }
        i += 1;
    }
    assert(lv.take(ls.len() as int) =~= lv);
    process_lyrics(&mut result);
    result
}

/// Whether `parse_eslrc` finishes on `src`: every non-blank line scans to its
/// end. (A line where a `[` opens no valid timestamp stops the scan.)
pub fn eslrc_parsable(src: &str) -> (r: bool)
    ensures
        r == eslrc_total(src@),
{
    let s = chars_of(src);
    let ls = lines_chars(&s);
    let ghost lv = views(ls@);
    let mut i: usize = 0;
    while i < ls.len()
        invariant
            i <= ls.len(),
            lv == views(ls@),
            lv == lines_of(s@),
            s@ == src@,
            forall|j: int| 0 <= j < i ==> trim(#[trigger] lv[j]).len() == 0 || trim(trim(lv[j])).len() == 0
                || es_scan(trim(trim(lv[j])), None, Seq::empty()) is Some,
        decreases ls.len() - i,
    {
        assert(lv[i as int] == ls@[i as int]@);
        let t = trim_chars(&ls[i]);
        if t.len() > 0 {
            let t2 = trim_chars(&t);
            if t2.len() > 0 {
                if scan_line(&t2).is_none() {
                    assert(!(trim(lv[i as int]).len() == 0 || trim(trim(lv[i as int])).len() == 0
                        || es_scan(trim(trim(lv[i as int])), None, Seq::empty()) is Some));
                    return false;
                }
            }
        }
        i += 1;
    }
    true
}

/// The ESLyric text of a line: the first word's start, then each word
/// followed by its end; lines without words give nothing.
pub open spec fn es_words_text(ws: Seq<SpecWord>) -> Seq<char>
    decreases ws.len(),
{
    if ws.len() == 0 {
        Seq::empty()
    } else {
        es_words_text(ws.drop_last()) + ws.last().word + lrc_stamp_text(ws.last().end_time)
    }
}

pub open spec fn es_line_text(l: SpecLine) -> Seq<char> {
    if l.words.len() == 0 {
        Seq::empty()
    } else {
        lrc_stamp_text(l.words[0].start_time) + es_words_text(l.words) + seq!['\n']
    }
}

pub open spec fn eslrc_text(lines: Seq<SpecLine>) -> Seq<char>
    decreases lines.len(),
{
    if lines.len() == 0 {
        Seq::empty()
    } else {
        eslrc_text(lines.drop_last()) + es_line_text(lines.last())
    }
}

/// The ESLyric writer puts each line with words after the ones before it: the
/// first word's start as an LRC timestamp, then every word in order followed
/// by its end as an LRC timestamp, then a newline; a line without words
/// writes nothing.
pub proof fn lemma_eslrc_writes_every_word(lines: Seq<SpecLine>, l: SpecLine, ws: Seq<SpecWord>, w: SpecWord)
    ensures
        eslrc_text(lines.push(l)) == eslrc_text(lines) + (if l.words.len() == 0 {
            Seq::<char>::empty()
        } else {
            lrc_stamp_text(l.words[0].start_time) + es_words_text(l.words) + seq!['\n']
        }),
        es_words_text(Seq::<SpecWord>::empty()) == Seq::<char>::empty(),
        es_words_text(ws.push(w)) == es_words_text(ws) + w.word + lrc_stamp_text(w.end_time),
{
    assert(lines.push(l).drop_last() =~= lines);
    assert(ws.push(w).drop_last() =~= ws);
}

/// Convert lyrics to ESLyric format string.
pub fn stringify_eslrc(lines: &[LyricLineOwned]) -> (r: String)
    ensures
        r@ == eslrc_text(lines_view(lines@)),
{
    let ghost lv = lines_view(lines@);
    let mut result = String::new();
    let mut i: usize = 0;
    while i < lines.len()
        invariant
            i <= lines.len(),
            lv == lines_view(lines@),
            result@ == eslrc_text(lv.take(i as int)),
        decreases lines.len() - i,
    {
        let line = &lines[i];
        assert(lv[i as int] == line@);
        assert(lv.take(i + 1).drop_last() =~= lv.take(i as int));
        let ghost before = result@;
        if line.words.len() > 0 {
            assert(line@.words[0] == line.words@[0]@);
            write_timestamp(&mut result, line.words[0].start_time);
            let ghost mid = result@;
            let mut j: usize = 0;
            while j < line.words.len()
                invariant
                    j <= line.words.len(),
                    line@ == lv[i as int],
                    result@ == mid + es_words_text(line@.words.take(j as int)),
                decreases line.words.len() - j,
            {
                let w = &line.words[j];
                assert(line@.words[j as int] == w@);
                assert(line@.words.take(j + 1).drop_last() =~= line@.words.take(j as int));
                let ghost b = result@;
                let wc = string_chars(&w.word);
                push_chars(&mut result, &wc);
                write_timestamp(&mut result, w.end_time);
                assert(result@ =~= b + w@.word + lrc_stamp_text(w@.end_time));
                j += 1;
            }
            assert(line@.words.take(line.words.len() as int) =~= line@.words);
            push_char(&mut result, '\n');
            assert(result@ =~= before + es_line_text(line@));
        } else {
            assert(result@ =~= before + es_line_text(line@));
        }
        i += 1;
    }
    assert(lv.take(lines.len() as int) =~= lv);
    result
}

} // verus!
