//! Pieces shared by the word-timed formats (YRC, QRC, LYS): bracketed number
//! groups such as `[12,345]` or `(0,500,0)`, the collection of parsed lines,
//! and the timing text that the writers emit.

use vstd::prelude::*;

use crate::lyrics::types::{
    lemma_lines_view_remove_first, lines_view, LyricLineOwned, LyricWordOwned, SpecLine, SpecWord,
    words_view,
};
use crate::text::{
    dec, find, find_char, lemma_find, parse_u64, parse_u64_chars, push_char, push_dec, split,
    split_chars, subvec, views,
};

verus! {

/// A group `open n1,n2[,...] close` at the start of `s` with exactly `n`
/// comma-separated fields, the first two of which are `u64` numbers: the number of
/// characters up to and including the first `close`, and the two numbers.
pub open spec fn timed_group(s: Seq<char>, open: char, close: char, n: nat) -> Option<(int, u64, u64)> {
    if s.len() > 0 && s[0] == open {
        match find(s, close) {
            Some(e) => {
                let parts = split(s.subrange(1, e), ',');
                if parts.len() == n && parse_u64(parts[0]) is Some && parse_u64(parts[1]) is Some {
                    Some((e + 1, parse_u64(parts[0])->0, parse_u64(parts[1])->0))
                } else {
                    None
                }
            },
            None => None,
        }
    } else {
        None
    }
}

pub proof fn lemma_timed_group_bounds(s: Seq<char>, open: char, close: char, n: nat)
    requires
        open != close,
    ensures
        timed_group(s, open, close, n) matches Some((k, a, b)) ==> 2 <= k <= s.len(),
{
    lemma_find(s, close);
}

pub fn timed_group_exec(s: &Vec<char>, open: char, close: char, n: usize) -> (r: Option<(usize, u64, u64)>)
    requires
        open != close,
        n >= 2,
    ensures
        match r {
            Some((k, a, b)) => timed_group(s@, open, close, n as nat) == Some((k as int, a, b)),
            None => timed_group(s@, open, close, n as nat) is None,
        },
{
    if s.len() == 0 || s[0] != open {
        return None;
    }
    let e = match find_char(s, close) {
        Some(e) => e,
        None => return None,
    };
    proof {
        lemma_find(s@, close);
    }
    let inner = subvec(s, 1, e);
    let parts = split_chars(&inner, ',');
    assert(views(parts@).len() == parts@.len());
    if parts.len() != n {
        return None;
    }
    assert(views(parts@)[0] == parts@[0]@);
    assert(views(parts@)[1] == parts@[1]@);
    let a = match parse_u64_chars(&parts[0]) {
        Some(a) => a,
        None => return None,
    };
    let b = match parse_u64_chars(&parts[1]) {
        Some(b) => b,
        None => return None,
    };
    Some((e + 1, a, b))
}

/// The lines that a line parser accepted, in order.
pub open spec fn somes(s: Seq<Option<SpecLine>>) -> Seq<SpecLine>
    decreases s.len(),
{
    if s.len() == 0 {
        Seq::empty()
    } else {
        let r = somes(s.drop_last());
        match s.last() {
            Some(l) => r.push(l),
            None => r,
        }
    }
}

pub proof fn lemma_somes_push(s: Seq<Option<SpecLine>>, x: Option<SpecLine>)
    ensures
        somes(s.push(x)) == match x {
            Some(l) => somes(s).push(l),
            None => somes(s),
        },
{
    assert(s.push(x).drop_last() =~= s);
}

/// Duration of a word as an integer (`end - start`).
pub open spec fn word_dur(w: SpecWord) -> int {
    w.end_time - w.start_time
}

pub open spec fn sum_durs(ws: Seq<SpecWord>) -> int
    decreases ws.len(),
{
    if ws.len() == 0 {
        0
    } else {
        sum_durs(ws.drop_last()) + word_dur(ws.last())
    }
}

/// No word ends before it starts.
pub open spec fn well_timed(ws: Seq<SpecWord>) -> bool {
    forall|i: int| 0 <= i < ws.len() ==> (#[trigger] ws[i]).start_time <= ws[i].end_time
}

/// What the word-timed writers need of their input: every word is well
/// timed and every line's total duration fits in a `u64`.
pub open spec fn writable(lines: Seq<SpecLine>) -> bool {
    forall|i: int|
        0 <= i < lines.len() ==> well_timed((#[trigger] lines[i]).words) && sum_durs(lines[i].words)
            <= u64::MAX
}

proof fn lemma_sum_durs_prefix(ws: Seq<SpecWord>, k: int)
    requires
        0 <= k <= ws.len(),
        well_timed(ws),
    ensures
        0 <= sum_durs(ws.take(k)) <= sum_durs(ws),
    decreases ws.len() - k,
{
    if k < ws.len() {
        assert(ws.drop_last().take(k) =~= ws.take(k));
        assert(well_timed(ws.drop_last())) by {
            assert forall|i: int| 0 <= i < ws.drop_last().len() implies (#[trigger] ws.drop_last()[i]).start_time
                <= ws.drop_last()[i].end_time by {
                assert(ws.drop_last()[i] == ws[i]);
            }
        }
        lemma_sum_durs_prefix(ws.drop_last(), k);
        assert(ws[ws.len() - 1].start_time <= ws[ws.len() - 1].end_time);
    } else {
        assert(ws.take(k) =~= ws);
        lemma_sum_durs_nonneg(ws);
    }
}

proof fn lemma_sum_durs_nonneg(ws: Seq<SpecWord>)
    requires
        well_timed(ws),
    ensures
        sum_durs(ws) >= 0,
    decreases ws.len(),
{
    if ws.len() > 0 {
        assert(well_timed(ws.drop_last())) by {
            assert forall|i: int| 0 <= i < ws.drop_last().len() implies (#[trigger] ws.drop_last()[i]).start_time
                <= ws.drop_last()[i].end_time by {
                assert(ws.drop_last()[i] == ws[i]);
            }
        }
        lemma_sum_durs_nonneg(ws.drop_last());
        assert(ws[ws.len() - 1].start_time <= ws[ws.len() - 1].end_time);
    }
}

/// Total duration of the words of a line.
pub fn total_duration(ws: &Vec<LyricWordOwned>) -> (r: u64)
    requires
        well_timed(words_view(ws@)),
        sum_durs(words_view(ws@)) <= u64::MAX,
    ensures
        r == sum_durs(words_view(ws@)),
{
    let ghost v = words_view(ws@);
    let mut acc: u64 = 0;
    let mut i: usize = 0;
    while i < ws.len()
        invariant
            i <= ws.len(),
            v == words_view(ws@),
            well_timed(v),
            sum_durs(v) <= u64::MAX,
            acc == sum_durs(v.take(i as int)),
        decreases ws.len() - i,
    {
        assert(v.take(i + 1).drop_last() =~= v.take(i as int));
        assert(v[i as int] == ws@[i as int]@);
        proof {
            lemma_sum_durs_prefix(v, i + 1);
        }
        acc = acc + (ws[i].end_time - ws[i].start_time);
        i += 1;
    }
    assert(v.take(ws.len() as int) =~= v);
    acc
}

/// Appends `open a,b close` style text: `first`, `a`, a comma, `b`.
pub fn push_pair(s: &mut String, first: char, a: u64, b: u64)
    ensures
        final(s)@ == old(s)@ + seq![first] + dec(a as nat) + seq![','] + dec(b as nat),
{
    let ghost s0 = s@;
    push_char(s, first);
    push_dec(s, a);
    push_char(s, ',');
    push_dec(s, b);
    assert(s@ =~= s0 + seq![first] + dec(a as nat) + seq![','] + dec(b as nat));
}

/// Runs `f` over the lines of `ls` and keeps the lines it accepts (the loop that
/// every word-timed parser shares), for a parser given by its number.
pub open spec fn parsed_lines(ls: Seq<Seq<char>>, f: spec_fn(Seq<char>) -> Option<SpecLine>) -> Seq<SpecLine> {
    somes(ls.map_values(f))
}

pub proof fn lemma_parsed_lines_step(
    ls: Seq<Seq<char>>,
    f: spec_fn(Seq<char>) -> Option<SpecLine>,
    i: int,
)
    requires
        0 <= i < ls.len(),
    ensures
        parsed_lines(ls.take(i + 1), f) == match f(ls[i]) {
            Some(l) => parsed_lines(ls.take(i), f).push(l),
            None => parsed_lines(ls.take(i), f),
        },
{
    assert(ls.take(i + 1).map_values(f) =~= ls.take(i).map_values(f).push(f(ls[i])));
    lemma_somes_push(ls.take(i).map_values(f), f(ls[i]));
}

pub proof fn lemma_lines_view_push(v: Seq<LyricLineOwned>, x: LyricLineOwned)
    ensures
        lines_view(v.push(x)) == lines_view(v).push(x@),
{
    assert(lines_view(v.push(x)) =~= lines_view(v).push(x@));
}

pub proof fn lemma_words_view_push(v: Seq<LyricWordOwned>, x: LyricWordOwned)
    ensures
        words_view(v.push(x)) == words_view(v).push(x@),
{
    assert(words_view(v.push(x)) =~= words_view(v).push(x@));
}

} // verus!
