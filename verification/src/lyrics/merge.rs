//! Attaching translation and romanization lines to the main lyrics.
//!
//! Both streams are sorted by time; they are walked together, and a main line
//! and an attribute line whose anchors lie within `LYRIC_ATTR_ALIGN_TOLERANCE_MS`
//! of each other are paired. When they are further apart the earlier stream
//! advances, so an unmatched line never blocks the later ones.

use vstd::prelude::*;

use crate::lyrics::lrc::{words_text, words_text_exec};
use crate::lyrics::types::{lines_view, LyricLineOwned, SpecLine};
use crate::text::{string_is_empty, string_of};

verus! {

/// Maximum start-time drift accepted when attaching line-level attributes.
pub const LYRIC_ATTR_ALIGN_TOLERANCE_MS: u64 = 300;

/// The time a line is aligned by: its first word's start, or its own start.
pub open spec fn anchor(l: SpecLine) -> u64 {
    if l.words.len() > 0 {
        l.words[0].start_time
    } else {
        l.start_time
    }
}

pub open spec fn abs_diff(a: u64, b: u64) -> nat {
    if a >= b { (a - b) as nat } else { (b - a) as nat }
}

/// `l` with `text` as its translation (`translation`) or romanization, unless it already has one.
pub open spec fn attach(l: SpecLine, text: Seq<char>, translation: bool) -> SpecLine {
    if translation {
        if l.translated_lyric.len() == 0 { SpecLine { translated_lyric: text, ..l } } else { l }
    } else {
        if l.roman_lyric.len() == 0 { SpecLine { roman_lyric: text, ..l } } else { l }
    }
}

/// The walk over both streams from main line `i` and attribute line `j`.
pub open spec fn merge_walk(main: Seq<SpecLine>, attr: Seq<SpecLine>, i: nat, j: nat, translation: bool) -> Seq<SpecLine>
    decreases main.len() - i + attr.len() - j,
{
    if i >= main.len() || j >= attr.len() {
        main
    } else {
        let mt = anchor(main[i as int]);
        let at = anchor(attr[j as int]);
        if abs_diff(mt, at) <= LYRIC_ATTR_ALIGN_TOLERANCE_MS {
            let text = words_text(attr[j as int].words);
            let m2 = if text.len() > 0 {
                main.update(i as int, attach(main[i as int], text, translation))
            } else {
                main
            };
            merge_walk(m2, attr, i + 1, j + 1, translation)
        } else if mt < at {
            merge_walk(main, attr, i + 1, j, translation)
        } else {
            merge_walk(main, attr, i, j + 1, translation)
        }
    }
}

/// `b` differs from `a` at most in the attribute that the walk fills, and
/// only where `a` had none.
pub open spec fn only_fills(a: Seq<SpecLine>, b: Seq<SpecLine>, translation: bool) -> bool {
    &&& b.len() == a.len()
    &&& forall|k: int|
        0 <= k < a.len() ==> {
            &&& (#[trigger] b[k]).words == a[k].words
            &&& b[k].is_bg == a[k].is_bg
            &&& b[k].is_duet == a[k].is_duet
            &&& b[k].start_time == a[k].start_time
            &&& b[k].end_time == a[k].end_time
            &&& if translation {
                &&& b[k].roman_lyric == a[k].roman_lyric
                &&& a[k].translated_lyric.len() > 0 ==> b[k].translated_lyric == a[k].translated_lyric
            } else {
                &&& b[k].translated_lyric == a[k].translated_lyric
                &&& a[k].roman_lyric.len() > 0 ==> b[k].roman_lyric == a[k].roman_lyric
            }
        }
}

/// The walk only fills empty attributes: line count, words, flags, times and
/// every attribute that was already present stay as they were.
pub proof fn lemma_merge_walk_only_fills(main: Seq<SpecLine>, attr: Seq<SpecLine>, i: nat, j: nat, translation: bool)
    ensures
        only_fills(main, merge_walk(main, attr, i, j, translation), translation),
    decreases main.len() - i + attr.len() - j,
{
    if i >= main.len() || j >= attr.len() {
    } else {
        let mt = anchor(main[i as int]);
        let at = anchor(attr[j as int]);
        if abs_diff(mt, at) <= LYRIC_ATTR_ALIGN_TOLERANCE_MS {
            let text = words_text(attr[j as int].words);
            let m2 = if text.len() > 0 {
                main.update(i as int, attach(main[i as int], text, translation))
            } else {
                main
            };
            lemma_merge_walk_only_fills(m2, attr, i + 1, j + 1, translation);
        } else if mt < at {
            lemma_merge_walk_only_fills(main, attr, i + 1, j, translation);
        } else {
            lemma_merge_walk_only_fills(main, attr, i, j + 1, translation);
        }
    }
}

/// The attribute that the walk fills: the translation or the romanization.
pub open spec fn attr_of(l: SpecLine, translation: bool) -> Seq<char> {
    if translation {
        l.translated_lyric
    } else {
        l.roman_lyric
    }
}

/// Every line of `a` whose attribute differs in `b` (from line `i0` on) took
/// it from attribute line `f(k)` (from `j0` on): the words of that line joined,
/// with anchors at most `LYRIC_ATTR_ALIGN_TOLERANCE_MS` apart; later filled
/// lines took later attribute lines.
pub open spec fn filled_from(
    a: Seq<SpecLine>,
    b: Seq<SpecLine>,
    attr: Seq<SpecLine>,
    f: spec_fn(int) -> int,
    i0: int,
    j0: int,
    translation: bool,
) -> bool {
    forall|k: int|
        0 <= k < a.len() && #[trigger] attr_of(b[k], translation) != attr_of(a[k], translation) ==> {
            &&& i0 <= k
            &&& j0 <= f(k) < attr.len()
            &&& abs_diff(anchor(a[k]), anchor(attr[f(k)])) <= LYRIC_ATTR_ALIGN_TOLERANCE_MS
            &&& attr_of(b[k], translation) == words_text(attr[f(k)].words)
            &&& forall|k2: int|
                k < k2 < a.len() && #[trigger] attr_of(b[k2], translation) != attr_of(a[k2], translation) ==> f(k)
                    < f(k2)
        }
}

proof fn lemma_merge_walk_matches(main: Seq<SpecLine>, attr: Seq<SpecLine>, i: nat, j: nat, translation: bool) -> (f:
    spec_fn(int) -> int)
    ensures
        filled_from(main, merge_walk(main, attr, i, j, translation), attr, f, i as int, j as int, translation),
    decreases main.len() - i + attr.len() - j,
{
    let b = merge_walk(main, attr, i, j, translation);
    if i >= main.len() || j >= attr.len() {
        |k: int| 0int
    } else {
        let mt = anchor(main[i as int]);
        let at = anchor(attr[j as int]);
        if abs_diff(mt, at) <= LYRIC_ATTR_ALIGN_TOLERANCE_MS {
            let text = words_text(attr[j as int].words);
            let m2 = if text.len() > 0 {
                main.update(i as int, attach(main[i as int], text, translation))
            } else {
                main
            };
            let f2 = lemma_merge_walk_matches(m2, attr, i + 1, j + 1, translation);
            lemma_merge_walk_only_fills(m2, attr, i + 1, j + 1, translation);
            let f = |k: int| if k == i as int { j as int } else { f2(k) };
            assert forall|k: int|
                0 <= k < main.len() && #[trigger] attr_of(b[k], translation) != attr_of(main[k], translation) implies {
                &&& i <= k
                &&& j <= f(k) < attr.len()
                &&& abs_diff(anchor(main[k]), anchor(attr[f(k)])) <= LYRIC_ATTR_ALIGN_TOLERANCE_MS
                &&& attr_of(b[k], translation) == words_text(attr[f(k)].words)
                &&& forall|k2: int|
                    k < k2 < main.len() && #[trigger] attr_of(b[k2], translation) != attr_of(main[k2], translation)
                        ==> f(k) < f(k2)
            } by {
                if k != i {
                    assert(m2[k] == main[k]);
                }
                assert forall|k2: int|
                    k < k2 < main.len() && #[trigger] attr_of(b[k2], translation) != attr_of(main[k2], translation)
                        implies f(k) < f(k2) by {
                    assert(m2[k2] == main[k2]);
                }
            }
            f
        } else if mt < at {
            lemma_merge_walk_matches(main, attr, i + 1, j, translation)
        } else {
            lemma_merge_walk_matches(main, attr, i, j + 1, translation)
        }
    }
}

/// What the merge fills, it fills from a matching attribute line: each main
/// line whose attribute changed got the joined words of an attribute line
/// whose anchor is at most `LYRIC_ATTR_ALIGN_TOLERANCE_MS` from its own, and
/// later main lines got later attribute lines; nothing else changes.
pub proof fn lemma_merge_fills_within_window(main: Seq<SpecLine>, attr: Seq<SpecLine>, translation: bool)
    ensures
        only_fills(main, merge_walk(main, attr, 0, 0, translation), translation),
        exists|f: spec_fn(int) -> int|
            filled_from(main, merge_walk(main, attr, 0, 0, translation), attr, f, 0, 0, translation),
{
    lemma_merge_walk_only_fills(main, attr, 0, 0, translation);
    let f = lemma_merge_walk_matches(main, attr, 0, 0, translation);
    assert(filled_from(main, merge_walk(main, attr, 0, 0, translation), attr, f, 0, 0, translation));
}

fn line_anchor_time(line: &LyricLineOwned) -> (r: u64)
    ensures
        r == anchor(line@),
{
    if line.words.len() > 0 {
        assert(line@.words[0] == line.words@[0]@);
        line.words[0].start_time
    } else {
        line.start_time
    }
}

fn merge_lrc_attr(main: &mut Vec<LyricLineOwned>, attr_lines: &[LyricLineOwned], translation: bool)
    ensures
        lines_view(final(main)@) == merge_walk(lines_view(old(main)@), lines_view(attr_lines@), 0, 0, translation),
{
    let ghost target = merge_walk(lines_view(main@), lines_view(attr_lines@), 0, 0, translation);
    let ghost av = lines_view(attr_lines@);
    let mut main_index: usize = 0;
    let mut attr_index: usize = 0;
    while main_index < main.len() && attr_index < attr_lines.len()
        invariant
            av == lines_view(attr_lines@),
            main_index <= main.len(),
            attr_index <= attr_lines.len(),
            merge_walk(lines_view(main@), av, main_index as nat, attr_index as nat, translation) == target,
        decreases main.len() - main_index + attr_lines.len() - attr_index,
    {
        let ghost mv = lines_view(main@);
        assert(mv[main_index as int] == main@[main_index as int]@);
        assert(av[attr_index as int] == attr_lines@[attr_index as int]@);
        let main_time = line_anchor_time(&main[main_index]);
        let attr_time = line_anchor_time(&attr_lines[attr_index]);
        let diff = if main_time >= attr_time { main_time - attr_time } else { attr_time - main_time };
        if diff <= LYRIC_ATTR_ALIGN_TOLERANCE_MS {
            let text = words_text_exec(&attr_lines[attr_index].words);
            if text.len() > 0 {
                let mut line = main.remove(main_index);
                let ghost l0 = line@;
                assert(l0 == mv[main_index as int]);
                if translation {
                    if string_is_empty(&line.translated_lyric) {
                        line.translated_lyric = string_of(&text);
                    }
                } else {
                    if string_is_empty(&line.roman_lyric) {
                        line.roman_lyric = string_of(&text);
                    }
                }
                assert(line@ == attach(l0, text@, translation));
                let ghost lv = line@;
                main.insert(main_index, line);
                assert(lines_view(main@) =~= mv.update(main_index as int, lv));
            }
            main_index += 1;
            attr_index += 1;
        } else if main_time < attr_time {
            main_index += 1;
        } else {
            attr_index += 1;
        }
    }
}

/// Merge translation lyrics into main lyrics.
pub fn merge_translation(main: &mut Vec<LyricLineOwned>, translation: &[LyricLineOwned])
    ensures
        lines_view(final(main)@) == merge_walk(lines_view(old(main)@), lines_view(translation@), 0, 0, true),
        only_fills(lines_view(old(main)@), lines_view(final(main)@), true),
{
    merge_lrc_attr(main, translation, true);
    proof {
        lemma_merge_walk_only_fills(lines_view(old(main)@), lines_view(translation@), 0, 0, true);
    }
}

/// Merge romanized lyrics into main lyrics.
pub fn merge_romanization(main: &mut Vec<LyricLineOwned>, romanization: &[LyricLineOwned])
    ensures
        lines_view(final(main)@) == merge_walk(lines_view(old(main)@), lines_view(romanization@), 0, 0, false),
        only_fills(lines_view(old(main)@), lines_view(final(main)@), false),
{
    merge_lrc_attr(main, romanization, false);
    proof {
        lemma_merge_walk_only_fills(lines_view(old(main)@), lines_view(romanization@), 0, 0, false);
    }
}

} // verus!
