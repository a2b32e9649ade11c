//! Lyricify Quick Export (LQE) container: a LYS `[lyrics: ...]` section and
//! optional `[translation: ...]` and `[pronunciation: ...]` sections in LRC.

use vstd::prelude::*;

use crate::lyrics::lrc::{join_lines, parse_lrc, spec_parse_lrc};
use crate::lyrics::lys::{parse_lys, spec_parse_lys};
use crate::lyrics::merge::{merge_romanization, merge_translation, merge_walk};
use crate::lyrics::types::{lines_view, LyricLineOwned, SpecLine};
use crate::text::{
    chars_of, find, find_char, lemma_find, lines_chars, lines_of, push_char, push_chars,
    string_of, subvec, trim, trim_chars, views,
};

verus! {

/// Kind of a section header.
#[derive(Clone, Copy, PartialEq, Eq, Structural)]
pub enum HeaderType {
    Lyric,
    Translation,
    Romanization,
    Unknown,
}

/// The header kind of a line `[key:...]` (after trimming): `lyrics`,
/// `translation` and `pronunciation` are known keys, any other key is unknown;
/// lines of another shape are no headers.
pub open spec fn header_kind(line: Seq<char>) -> Option<HeaderType> {
    let t = trim(line);
    if t.len() > 0 && t[0] == '[' && t.last() == ']' && t.len() >= 2 {
        let body = t.subrange(1, t.len() - 1);
        match find(body, ':') {
            Some(c) => {
                let key = body.take(c);
                Some(
                    if key == seq!['l', 'y', 'r', 'i', 'c', 's'] {
                        HeaderType::Lyric
                    } else if key == seq!['t', 'r', 'a', 'n', 's', 'l', 'a', 't', 'i', 'o', 'n'] {
                        HeaderType::Translation
                    } else if key == seq!['p', 'r', 'o', 'n', 'u', 'n', 'c', 'i', 'a', 't', 'i', 'o', 'n'] {
                        HeaderType::Romanization
                    } else {
                        HeaderType::Unknown
                    },
                )
            },
            None => None,
        }
    } else {
        None
    }
}

fn key_is(key: &Vec<char>, word: &str) -> (r: bool)
    ensures
        r == (key@ == word@),
{
    let w = chars_of(word);
    if key.len() != w.len() {
        return false;
    }
    let mut i: usize = 0;
    while i < key.len()
        invariant
            key.len() == w.len(),
            w@ == word@,
            i <= key.len(),
            forall|j: int| 0 <= j < i ==> key@[j] == w@[j],
        decreases key.len() - i,
    {
        if key[i] != w[i] {
            return false;
        }
        i += 1;
    }
    assert(key@ =~= w@);
    true
}

fn parse_header(line: &Vec<char>) -> (r: Option<HeaderType>)
    ensures
        r == header_kind(line@),
{
    let t = trim_chars(line);
    let n = t.len();
    if !(n > 0 && t[0] == '[' && t[n - 1] == ']' && n >= 2) {
        return None;
    }
    let body = subvec(&t, 1, n - 1);
    let c = match find_char(&body, ':') {
        Some(c) => c,
        None => return None,
    };
    proof {
        lemma_find(body@, ':');
    }
    let key = subvec(&body, 0, c);
    proof {
        reveal_strlit("lyrics");
        reveal_strlit("translation");
        reveal_strlit("pronunciation");
        assert("lyrics"@ =~= seq!['l', 'y', 'r', 'i', 'c', 's']);
        assert("translation"@ =~= seq!['t', 'r', 'a', 'n', 's', 'l', 'a', 't', 'i', 'o', 'n']);
        assert("pronunciation"@ =~= seq!['p', 'r', 'o', 'n', 'u', 'n', 'c', 'i', 'a', 't', 'i', 'o', 'n']);
    }
    if key_is(&key, "lyrics") {
        Some(HeaderType::Lyric)
    } else if key_is(&key, "translation") {
        Some(HeaderType::Translation)
    } else if key_is(&key, "pronunciation") {
        Some(HeaderType::Romanization)
    } else {
        Some(HeaderType::Unknown)
    }
}

/// The trimmed non-empty lines of `src`.
pub open spec fn content_lines(ls: Seq<Seq<char>>) -> Seq<Seq<char>>
    decreases ls.len(),
{
    if ls.len() == 0 {
        Seq::empty()
    } else {
        let r = content_lines(ls.drop_last());
        if trim(ls.last()).len() > 0 { r.push(trim(ls.last())) } else { r }
    }
}

/// The headers among `ls`: their positions and kinds, in order.
pub open spec fn headers(ls: Seq<Seq<char>>) -> Seq<(int, HeaderType)>
    decreases ls.len(),
{
    if ls.len() == 0 {
        Seq::empty()
    } else {
        let r = headers(ls.drop_last());
        match header_kind(ls.last()) {
            Some(k) => r.push((ls.len() - 1, k)),
            None => r,
        }
    }
}

/// Position of the first header of kind `k`.
pub open spec fn first_of_kind(hs: Seq<(int, HeaderType)>, k: HeaderType) -> Option<int>
    decreases hs.len(),
{
    if hs.len() == 0 {
        None
    } else {
        match first_of_kind(hs.drop_last(), k) {
            Some(p) => Some(p),
            None => if hs.last().1 == k { Some(hs.len() - 1) } else { None },
        }
    }
}

/// The lines of the section opened by header `p`, joined with newlines; `hs`
/// ends with an end marker at `ls.len()`.
pub open spec fn section_text(ls: Seq<Seq<char>>, hs: Seq<(int, HeaderType)>, p: int) -> Seq<char> {
    join_lines(ls.subrange(hs[p].0 + 1, hs[p + 1].0))
}

/// The lines of an LRC attribute section, or none when the section is missing.
pub open spec fn attr_section(ls: Seq<Seq<char>>, hs: Seq<(int, HeaderType)>, k: HeaderType) -> Seq<SpecLine> {
    match first_of_kind(hs, k) {
        Some(q) => spec_parse_lrc(section_text(ls, hs, q)),
        None => Seq::empty(),
    }
}

/// What `parse_lqe` returns for the text `src`: the LYS lyrics section with the
/// translation and pronunciation sections merged in; nothing without a lyrics section.
pub open spec fn spec_parse_lqe(src: Seq<char>) -> Seq<SpecLine> {
    let ls = content_lines(lines_of(src));
    let hs0 = headers(ls);
    match first_of_kind(hs0, HeaderType::Lyric) {
        None => Seq::empty(),
        Some(p) => {
            let hs = hs0.push((ls.len() as int, HeaderType::Unknown));
            let main = spec_parse_lys(section_text(ls, hs, p));
            let translated = merge_walk(main, attr_section(ls, hs, HeaderType::Translation), 0, 0, true);
            merge_walk(translated, attr_section(ls, hs, HeaderType::Romanization), 0, 0, false)
        },
    }
}

/// Header positions increase and stay below `n`.
pub open spec fn headers_ordered(hs: Seq<(int, HeaderType)>, n: int) -> bool {
    &&& forall|a: int, b: int| 0 <= a < b < hs.len() ==> hs[a].0 < hs[b].0
    &&& forall|a: int| 0 <= a < hs.len() ==> 0 <= #[trigger] hs[a].0 < n
}

/// The section text: lines `lo..hi` of `ls` joined with newlines.
fn join_section(ls: &Vec<Vec<char>>, lo: usize, hi: usize) -> (r: String)
    requires
        lo <= hi <= ls.len(),
    ensures
        r@ == join_lines(views(ls@).subrange(lo as int, hi as int)),
{
    let ghost lv = views(ls@);
    let mut s = String::new();
    let mut i = lo;
    while i < hi
        invariant
            lo <= i <= hi <= ls.len(),
            lv == views(ls@),
            s@ == join_lines(lv.subrange(lo as int, i as int)),
        decreases hi - i,
    {
        assert(lv[i as int] == ls@[i as int]@);
        let ghost e = lv.subrange(lo as int, i + 1);
        assert(e.drop_last() =~= lv.subrange(lo as int, i as int));
        if i > lo {
            push_char(&mut s, '\n');
        }
        push_chars(&mut s, &ls[i]);
        proof {
            if i == lo {
                assert(s@ =~= join_lines(e));
            } else {
                assert(s@ =~= join_lines(e));
            }
        }
        i += 1;
    }
    s
}

fn find_kind(hs: &Vec<(usize, HeaderType)>, k: HeaderType) -> (r: Option<usize>)
    ensures
        match r {
            Some(p) => first_of_kind(hs@.map_values(|h: (usize, HeaderType)| (h.0 as int, h.1)), k)
                == Some(p as int) && p < hs.len() && hs@[p as int].1 == k,
            None => first_of_kind(hs@.map_values(|h: (usize, HeaderType)| (h.0 as int, h.1)), k) is None,
        },
{
    let ghost hv = hs@.map_values(|h: (usize, HeaderType)| (h.0 as int, h.1));
    let mut i: usize = 0;
    while i < hs.len()
        invariant
            i <= hs.len(),
            hv == hs@.map_values(|h: (usize, HeaderType)| (h.0 as int, h.1)),
            first_of_kind(hv.take(i as int), k) is None,
        decreases hs.len() - i,
    {
        assert(hv.take(i + 1).drop_last() =~= hv.take(i as int));
        assert(hv[i as int] == (hs@[i as int].0 as int, hs@[i as int].1));
        if hs[i].1 == k {
            proof {
                lemma_first_of_kind_prefix(hv, k, i + 1);
            }
            return Some(i);
        }
        i += 1;
    }
    assert(hv.take(hs.len() as int) =~= hv);
    None
}

/// A kind found in a prefix is found at the same place in the whole list.
proof fn lemma_first_of_kind_prefix(hs: Seq<(int, HeaderType)>, k: HeaderType, n: int)
    requires
        0 <= n <= hs.len(),
        first_of_kind(hs.take(n), k) is Some,
    ensures
        first_of_kind(hs, k) == first_of_kind(hs.take(n), k),
    decreases hs.len() - n,
{
    if n < hs.len() {
        assert(hs.take(n + 1).drop_last() =~= hs.take(n));
        lemma_first_of_kind_prefix(hs, k, n + 1);
    } else {
        assert(hs.take(n) =~= hs);
    }
}

/// Parse LQE content into lyric lines.
pub fn parse_lqe(src: &str) -> (r: Vec<LyricLineOwned>)
    ensures
        lines_view(r@) == spec_parse_lqe(src@),
{
    let s = chars_of(src);
    let raw = lines_chars(&s);
    let ghost rv = views(raw@);
    // The trimmed non-empty lines.
    let mut lines: Vec<Vec<char>> = Vec::new();
    let mut i: usize = 0;
    while i < raw.len()
        invariant
            i <= raw.len(),
            rv == views(raw@),
            views(lines@) == content_lines(rv.take(i as int)),
        decreases raw.len() - i,
    {
        assert(rv[i as int] == raw@[i as int]@);
        assert(rv.take(i + 1).drop_last() =~= rv.take(i as int));
        let t = trim_chars(&raw[i]);
        if t.len() > 0 {
            let ghost before = lines@;
            lines.push(t);
            assert(views(lines@) =~= views(before).push(t@));
        }
        i += 1;
    }
    assert(rv.take(raw.len() as int) =~= rv);
    let ghost lv = views(lines@);
    assert(lv == content_lines(lines_of(src@)));
    // The headers among them.
    let mut hs: Vec<(usize, HeaderType)> = Vec::new();
    let mut j: usize = 0;
    while j < lines.len()
        invariant
            j <= lines.len(),
            lv == views(lines@),
            hs@.map_values(|h: (usize, HeaderType)| (h.0 as int, h.1)) == headers(lv.take(j as int)),
            forall|a: int, b: int| 0 <= a < b < hs@.len() ==> hs@[a].0 < hs@[b].0,
            forall|a: int| 0 <= a < hs@.len() ==> #[trigger] hs@[a].0 < j,
        decreases lines.len() - j,
    {
        assert(lv[j as int] == lines@[j as int]@);
        assert(lv.take(j + 1).drop_last() =~= lv.take(j as int));
        assert(lv.take(j + 1).last() == lv[j as int]);
        match parse_header(&lines[j]) {
            Some(k) => {
                let ghost before = hs@;
                hs.push((j, k));
                assert(hs@.map_values(|h: (usize, HeaderType)| (h.0 as int, h.1)) =~= before.map_values(
                    |h: (usize, HeaderType)| (h.0 as int, h.1),
                ).push((j as int, k)));
            },
            None => {},
        }
        j += 1;
    }
    assert(lv.take(lines.len() as int) =~= lv);
    let lyric_index = match find_kind(&hs, HeaderType::Lyric) {
        Some(p) => p,
        None => return Vec::new(),
    };
    let ghost hs0 = hs@.map_values(|h: (usize, HeaderType)| (h.0 as int, h.1));
    hs.push((lines.len(), HeaderType::Unknown));
    let ghost hv = hs@.map_values(|h: (usize, HeaderType)| (h.0 as int, h.1));
    assert(hv =~= hs0.push((lv.len() as int, HeaderType::Unknown)));
    assert(hv[lyric_index as int] == (hs@[lyric_index as int].0 as int, hs@[lyric_index as int].1));
    assert(hv[lyric_index + 1] == (hs@[lyric_index + 1].0 as int, hs@[lyric_index + 1].1));
    let lyric_start = hs[lyric_index].0 + 1;
    let lyric_end = hs[lyric_index + 1].0;
    let lyric_text = join_section(&lines, lyric_start, lyric_end);
    let mut parsed_lines = parse_lys(lyric_text.as_str());
    let translation = attr_section_exec(&lines, &hs, HeaderType::Translation);
    merge_translation(&mut parsed_lines, &translation);
    let romanization = attr_section_exec(&lines, &hs, HeaderType::Romanization);
    merge_romanization(&mut parsed_lines, &romanization);
    parsed_lines
}

fn attr_section_exec(lines: &Vec<Vec<char>>, hs: &Vec<(usize, HeaderType)>, k: HeaderType) -> (r: Vec<LyricLineOwned>)
    requires
        hs@.len() >= 1,
        hs@.last().0 == lines@.len(),
        hs@.last().1 == HeaderType::Unknown,
        k != HeaderType::Unknown,
        forall|a: int, b: int| 0 <= a < b < hs@.len() ==> hs@[a].0 < hs@[b].0,
        forall|a: int| 0 <= a < hs@.len() ==> #[trigger] hs@[a].0 <= lines@.len(),
    ensures
        lines_view(r@) == attr_section(views(lines@), hs@.map_values(|h: (usize, HeaderType)| (h.0 as int, h.1)), k),
{
    let ghost hv = hs@.map_values(|h: (usize, HeaderType)| (h.0 as int, h.1));
    match find_kind(hs, k) {
        Some(q) => {
            assert(q + 1 < hs.len()) by {
                if q + 1 >= hs.len() {
                    assert(hs@[q as int].1 == k);
                }
            }
            assert(hv[q as int] == (hs@[q as int].0 as int, hs@[q as int].1));
            assert(hv[q + 1] == (hs@[q + 1].0 as int, hs@[q + 1].1));
            let text = join_section(lines, hs[q].0 + 1, hs[q + 1].0);
            parse_lrc(text.as_str())
        },
        None => Vec::new(),
    }
}

} // verus!
