//! ASS subtitle export.
//!
//! Precision below 10 ms is lost. The main singer is named `v1` and the duet
//! singer `v2`; background lines get a `-bg` suffix, translations `-trans` and
//! romanizations `-roman`.

use vstd::prelude::*;

use crate::lyrics::types::{lines_view, LyricLineOwned, SpecLine, SpecWord};
use crate::text::{dec, dec_pad, push_char, push_chars, push_dec, push_dec_pad, push_str, string_chars, string_is_empty};

verus! {

/// `h:mm:ss.cc` for a time in milliseconds.
pub open spec fn ass_time(t: u64) -> Seq<char> {
    dec((t / 3600000) as nat) + seq![':'] + dec_pad(((t / 60000) % 60) as nat, 2) + seq![':']
        + dec_pad(((t / 1000) % 60) as nat, 2) + seq!['.'] + dec_pad(((t % 1000) / 10) as nat, 2)
}

fn write_timestamp(result: &mut String, time: u64)
    ensures
        final(result)@ == old(result)@ + ass_time(time),
{
    let ghost r0 = result@;
    push_dec(result, time / 3600000);
    push_char(result, ':');
    push_dec_pad(result, (time / 60000) % 60, 2);
    push_char(result, ':');
    push_dec_pad(result, (time / 1000) % 60, 2);
    push_char(result, '.');
    push_dec_pad(result, (time % 1000) / 10, 2);
    assert(result@ =~= r0 + ass_time(time));
}

/// Earliest start and latest end of the words that end after they start.
pub open spec fn timed_span(ws: Seq<SpecWord>) -> Option<(u64, u64)>
    decreases ws.len(),
{
    if ws.len() == 0 {
        None
    } else {
        let r = timed_span(ws.drop_last());
        let w = ws.last();
        if w.end_time > w.start_time {
            match r {
                Some((a, b)) => Some((
                    if w.start_time < a { w.start_time } else { a },
                    if w.end_time > b { w.end_time } else { b },
                )),
                None => Some((w.start_time, w.end_time)),
            }
        } else {
            r
        }
    }
}

/// A `{\k n}` karaoke tag for `n` centiseconds, or nothing for zero.
pub open spec fn k_tag(n: nat) -> Seq<char> {
    if n > 0 {
        seq!['{', '\\', 'k'] + dec(n) + seq!['}']
    } else {
        Seq::empty()
    }
}

/// Milliseconds to centiseconds, rounded half up.
pub open spec fn centis(ms: nat) -> nat {
    (ms + 5) / 10
}

/// The karaoke text of the words from `i` on, `prev` being the end of the last timed word.
pub open spec fn ass_words(ws: Seq<SpecWord>, i: int, prev: u64) -> Seq<char>
    decreases ws.len() - i,
{
    if i < 0 || i >= ws.len() {
        Seq::empty()
    } else {
        let w = ws[i];
        if w.start_time >= w.end_time {
            w.word + ass_words(ws, i + 1, prev)
        } else {
            (if w.start_time > prev { k_tag(centis((w.start_time - prev) as nat)) } else { Seq::empty() })
                + k_tag(centis((w.end_time - w.start_time) as nat)) + w.word + ass_words(ws, i + 1, w.end_time)
        }
    }
}

/// The speaker field of a line.
pub open spec fn role(l: SpecLine) -> Seq<char> {
    (if l.is_duet { seq!['v', '2'] } else { seq!['v', '1'] }) + if l.is_bg {
        seq!['-', 'b', 'g']
    } else {
        Seq::empty()
    }
}

/// The start of a dialogue line: layer, start, end, style and speaker.
#[verifier::opaque]
pub open spec fn dialogue_head(l: SpecLine, s: u64, e: u64) -> Seq<char> {
    "Dialogue: 0,"@ + ass_time(s) + seq![','] + ass_time(e) + ",Default,"@ + role(l)
}

pub open spec fn dialogue(l: SpecLine, s: u64, e: u64, suffix: Seq<char>, text: Seq<char>) -> Seq<char> {
    dialogue_head(l, s, e) + suffix + ",0,0,0,,"@ + text + seq!['\n']
}

/// The dialogue lines of one lyric line: none without a timed word; else the
/// karaoke line, then the translation and the romanization where present.
pub open spec fn ass_line(l: SpecLine) -> Seq<char> {
    match timed_span(l.words) {
        None => Seq::empty(),
        Some((s, e)) => dialogue(l, s, e, Seq::empty(), ass_words(l.words, 0, s)) + (if l.translated_lyric.len()
            > 0 {
            dialogue(l, s, e, "-trans"@, l.translated_lyric)
        } else {
            Seq::empty()
        }) + (if l.roman_lyric.len() > 0 {
            dialogue(l, s, e, "-roman"@, l.roman_lyric)
        } else {
            Seq::empty()
        }),
    }
}

pub open spec fn ass_lines(lines: Seq<SpecLine>) -> Seq<char>
    decreases lines.len(),
{
    if lines.len() == 0 {
        Seq::empty()
    } else {
        ass_lines(lines.drop_last()) + ass_line(lines.last())
    }
}

pub open spec fn ass_header() -> Seq<char> {
    "[Script Info]\n"@ + "[Events]\n"@
        + "Format: Marked, Start, End, Style, Name, MarginL, MarginR, MarginV, Effect, Text\n"@
}

/// The ASS text of `lines`.
pub open spec fn ass_text(lines: Seq<SpecLine>) -> Seq<char> {
    ass_header() + ass_lines(lines)
}

fn timed_span_exec(line: &LyricLineOwned) -> (r: Option<(u64, u64)>)
    ensures
        r == timed_span(line@.words),
{
    let ghost ws = line@.words;
    let mut r: Option<(u64, u64)> = None;
    let mut i: usize = 0;
    while i < line.words.len()
        invariant
            i <= line.words.len(),
            ws == line@.words,
            r == timed_span(ws.take(i as int)),
        decreases line.words.len() - i,
    {
        let w = &line.words[i];
        assert(ws[i as int] == w@);
        assert(ws.take(i + 1).drop_last() =~= ws.take(i as int));
        if w.end_time > w.start_time {
            r = match r {
                Some((a, b)) => Some((
                    if w.start_time < a { w.start_time } else { a },
                    if w.end_time > b { w.end_time } else { b },
                )),
                None => Some((w.start_time, w.end_time)),
            };
        }
        i += 1;
    }
    assert(ws.take(line.words.len() as int) =~= ws);
    r
}

/// Centiseconds of `ms`, rounded half up.
fn centis_exec(ms: u64) -> (r: u64)
    ensures
        r == centis(ms as nat),
{
    ms / 10 + (ms % 10 + 5) / 10
}

fn push_k(result: &mut String, n: u64)
    ensures
        final(result)@ == old(result)@ + k_tag(n as nat),
{
    if n > 0 {
        let ghost r0 = result@;
        push_char(result, '{');
        push_char(result, '\\');
        push_char(result, 'k');
        push_dec(result, n);
        push_char(result, '}');
        assert(result@ =~= r0 + k_tag(n as nat));
    } else {
        assert(result@ =~= old(result)@ + k_tag(n as nat));
    }
}

#[verifier::rlimit(40)]
fn push_dialogue_head(result: &mut String, line: &LyricLineOwned, s: u64, e: u64)
    ensures
        final(result)@ == old(result)@ + dialogue_head(line@, s, e),
{
    reveal(dialogue_head);
    let ghost r0 = result@;
    push_str(result, "Dialogue: 0,");
    write_timestamp(result, s);
    push_char(result, ',');
    write_timestamp(result, e);
    push_str(result, ",Default,");
    let ghost r1 = result@;
    if line.is_duet {
        push_char(result, 'v');
        push_char(result, '2');
    } else {
        push_char(result, 'v');
        push_char(result, '1');
    }
    if line.is_bg {
        push_char(result, '-');
        push_char(result, 'b');
        push_char(result, 'g');
    }
    assert(result@ =~= r1 + role(line@));
}

fn push_ass_words(result: &mut String, line: &LyricLineOwned, start_time: u64)
    ensures
        final(result)@ == old(result)@ + ass_words(line@.words, 0, start_time),
{
    let ghost l = line@;
    let ghost mid = result@;
    let mut previous_word_end_time = start_time;
    let mut j: usize = 0;
    while j < line.words.len()
        invariant
            j <= line.words.len(),
            l == line@,
            result@ + ass_words(l.words, j as int, previous_word_end_time) == mid + ass_words(l.words, 0, start_time),
        decreases line.words.len() - j,
    {
        let w = &line.words[j];
        assert(l.words[j as int] == w@);
        let wc = string_chars(&w.word);
        let ghost b = result@;
        if w.start_time >= w.end_time {
            push_chars(result, &wc);
            assert(result@ + ass_words(l.words, j + 1, previous_word_end_time) =~= b + ass_words(
                l.words,
                j as int,
                previous_word_end_time,
            ));
        } else {
            if w.start_time > previous_word_end_time {
                push_k(result, centis_exec(w.start_time - previous_word_end_time));
            }
            push_k(result, centis_exec(w.end_time - w.start_time));
            push_chars(result, &wc);
            assert(result@ + ass_words(l.words, j + 1, w.end_time) =~= b + ass_words(
                l.words,
                j as int,
                previous_word_end_time,
            ));
            previous_word_end_time = w.end_time;
        }
        j += 1;
    }
    assert(result@ + ass_words(l.words, j as int, previous_word_end_time) =~= result@);
}

/// A `-trans` or `-roman` dialogue line carrying `text`, or nothing when `text` is empty.
fn push_attr_dialogue(result: &mut String, line: &LyricLineOwned, s: u64, e: u64, suffix: &str, text: &String)
    ensures
        final(result)@ == old(result)@ + (if text@.len() > 0 {
            dialogue(line@, s, e, suffix@, text@)
        } else {
            Seq::empty()
        }),
{
    let ghost r0 = result@;
    if !string_is_empty(text) {
        push_dialogue_head(result, line, s, e);
        push_str(result, suffix);
        push_str(result, ",0,0,0,,");
        let t = string_chars(text);
        push_chars(result, &t);
        push_char(result, '\n');
        assert(result@ =~= r0 + dialogue(line@, s, e, suffix@, text@));
    } else {
        assert(result@ =~= r0 + Seq::<char>::empty());
    }
}

fn push_ass_line(result: &mut String, line: &LyricLineOwned)
    ensures
        final(result)@ == old(result)@ + ass_line(line@),
{
    let ghost before = result@;
    match timed_span_exec(line) {
        None => {
            assert(result@ =~= before + ass_line(line@));
        },
        Some((start_time, end_time)) => {
            let ghost l = line@;
            push_dialogue_head(result, line, start_time, end_time);
            push_str(result, ",0,0,0,,");
            push_ass_words(result, line, start_time);
            push_char(result, '\n');
            assert(result@ =~= before + dialogue(l, start_time, end_time, Seq::empty(), ass_words(l.words, 0, start_time)));
            push_attr_dialogue(result, line, start_time, end_time, "-trans", &line.translated_lyric);
            push_attr_dialogue(result, line, start_time, end_time, "-roman", &line.roman_lyric);
            assert(result@ =~= before + ass_line(line@));
        },
    }
}

/// The ASS text keeps the input order: the rows of `a` followed by those of
/// `b` are the rows of `a + b`, each line giving its own block (none without
/// a timed word; else the karaoke row, then the translation and the
/// romanization rows where present).
pub proof fn lemma_ass_rows_in_order(a: Seq<SpecLine>, b: Seq<SpecLine>)
    ensures
        ass_lines(a + b) == ass_lines(a) + ass_lines(b),
        ass_text(a + b) == ass_text(a) + ass_lines(b),
    decreases b.len(),
{
    if b.len() == 0 {
        assert(a + b =~= a);
        assert(ass_lines(a) + ass_lines(b) =~= ass_lines(a));
    } else {
        lemma_ass_rows_in_order(a, b.drop_last());
        assert((a + b).drop_last() =~= a + b.drop_last());
        assert((a + b).last() == b.last());
        assert(ass_lines(a) + ass_lines(b.drop_last()) + ass_line(b.last()) =~= ass_lines(a) + (ass_lines(
            b.drop_last(),
        ) + ass_line(b.last())));
    }
    assert(ass_header() + ass_lines(a) + ass_lines(b) =~= ass_header() + (ass_lines(a) + ass_lines(b)));
}

/// One line's rows are its block.
pub proof fn lemma_ass_single_line(l: SpecLine)
    ensures
        ass_lines(seq![l]) == ass_line(l),
{
    assert(seq![l].drop_last() =~= Seq::<SpecLine>::empty());
    assert(ass_lines(seq![l].drop_last()) == Seq::<char>::empty());
    assert(seq![l].last() == l);
    assert(Seq::<char>::empty() + ass_line(l) =~= ass_line(l));
}


/// Convert lyrics to ASS subtitle format.
pub fn stringify_ass(lines: &[LyricLineOwned]) -> (r: String)
    ensures
        r@ == ass_text(lines_view(lines@)),
{
    let ghost lv = lines_view(lines@);
    let mut result = String::new();
    push_str(&mut result, "[Script Info]\n");
    push_str(&mut result, "[Events]\n");
    push_str(&mut result, "Format: Marked, Start, End, Style, Name, MarginL, MarginR, MarginV, Effect, Text\n");
    assert(result@ =~= ass_header());
    let mut i: usize = 0;
    assert(lv.take(0) =~= Seq::<SpecLine>::empty());
    assert(result@ =~= ass_header() + ass_lines(lv.take(0)));
    while i < lines.len()
        invariant
            i <= lines.len(),
            lv == lines_view(lines@),
            result@ == ass_header() + ass_lines(lv.take(i as int)),
        decreases lines.len() - i,
    {
        let line = &lines[i];
        assert(lv[i as int] == line@);
        assert(lv.take(i + 1).drop_last() =~= lv.take(i as int));
        push_ass_line(&mut result, line);
        assert(result@ =~= ass_header() + ass_lines(lv.take(i + 1)));
        i += 1;
    }
    assert(lv.take(lines.len() as int) =~= lv);
    result
}

} // verus!
