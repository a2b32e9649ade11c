//! Lyric data types, their mathematical views, and the post-processing that
//! every parser applies (`process_lyrics`).

use vstd::prelude::*;

use crate::text::copy_string;

verus! {

/// Largest timestamp (in milliseconds) that the parsers keep: 999:59.999 plus
/// the slack that LRC editors write.
pub const MAX_LRC_TIMESTAMP: u64 = 60_039_999;

/// Lyrics format enum
#[derive(Debug, Clone, Copy, PartialEq, Eq, Structural)]
pub enum LyricsFormat {
    /// Standard LRC format [mm:ss.xx]text
    Lrc,
    /// Lyricify Quick Export container
    Lqe,
    /// NetEase Cloud Music YRC format (word-level)
    Yrc,
    /// QQ Music QRC format (word-level)
    Qrc,
    /// Foobar2000 ESLyric format (word-level)
    EsLrc,
    /// Lyricify Syllable format
    Lys,
    /// Apple Music TTML format
    Ttml,
    /// Unknown format
    Unknown,
}

/// A single word in a lyric line
#[derive(Debug, Clone, PartialEq)]
pub struct LyricWordOwned {
    /// Start time in milliseconds
    pub start_time: u64,
    /// End time in milliseconds
    pub end_time: u64,
    /// The word text
    pub word: String,
    /// Romanized/phonetic version of the word
    pub roman_word: String,
}

/// A single line of lyrics
#[derive(Debug, Clone, PartialEq)]
pub struct LyricLineOwned {
    /// Words in this line (for word-level sync)
    pub words: Vec<LyricWordOwned>,
    /// Translated lyric text
    pub translated_lyric: String,
    /// Romanized/phonetic lyric text
    pub roman_lyric: String,
    /// Whether this is a background vocal line
    pub is_bg: bool,
    /// Whether this is a duet line (different singer)
    pub is_duet: bool,
    /// Start time in milliseconds
    pub start_time: u64,
    /// End time in milliseconds
    pub end_time: u64,
}

/// Mathematical model of a word: its times and its texts as character sequences.
pub struct SpecWord {
    pub start_time: u64,
    pub end_time: u64,
    pub word: Seq<char>,
    pub roman_word: Seq<char>,
}

/// Mathematical model of a line.
pub struct SpecLine {
    pub words: Seq<SpecWord>,
    pub translated_lyric: Seq<char>,
    pub roman_lyric: Seq<char>,
    pub is_bg: bool,
    pub is_duet: bool,
    pub start_time: u64,
    pub end_time: u64,
}

impl View for LyricWordOwned {
    type V = SpecWord;

    open spec fn view(&self) -> SpecWord {
        SpecWord {
            start_time: self.start_time,
            end_time: self.end_time,
            word: self.word@,
            roman_word: self.roman_word@,
        }
    }
}

pub open spec fn words_view(v: Seq<LyricWordOwned>) -> Seq<SpecWord> {
    v.map_values(|w: LyricWordOwned| w@)
}

impl View for LyricLineOwned {
    type V = SpecLine;

    open spec fn view(&self) -> SpecLine {
        SpecLine {
            words: words_view(self.words@),
            translated_lyric: self.translated_lyric@,
            roman_lyric: self.roman_lyric@,
            is_bg: self.is_bg,
            is_duet: self.is_duet,
            start_time: self.start_time,
            end_time: self.end_time,
        }
    }
}

pub open spec fn lines_view(v: Seq<LyricLineOwned>) -> Seq<SpecLine> {
    v.map_values(|l: LyricLineOwned| l@)
}

pub proof fn lemma_lines_view_remove_first(before: Seq<LyricLineOwned>)
    requires
        before.len() > 0,
    ensures
        lines_view(before.remove(0)) == lines_view(before).drop_first(),
        lines_view(before)[0] == before[0]@,
{
    assert(lines_view(before.remove(0)) =~= lines_view(before).drop_first());
}

pub proof fn lemma_words_view_remove_first(before: Seq<LyricWordOwned>)
    requires
        before.len() > 0,
    ensures
        words_view(before.remove(0)) == words_view(before).drop_first(),
        words_view(before)[0] == before[0]@,
{
    assert(words_view(before.remove(0)) =~= words_view(before).drop_first());
}

/// A word with empty texts and zero times.
pub open spec fn empty_word() -> SpecWord {
    SpecWord {
        start_time: 0,
        end_time: 0,
        word: Seq::empty(),
        roman_word: Seq::empty(),
    }
}

/// A line with no words, empty texts, no flags and zero times.
pub open spec fn empty_line() -> SpecLine {
    SpecLine {
        words: Seq::empty(),
        translated_lyric: Seq::empty(),
        roman_lyric: Seq::empty(),
        is_bg: false,
        is_duet: false,
        start_time: 0,
        end_time: 0,
    }
}

/// A word with the given times and text, without romanization.
pub open spec fn plain_word(start_time: u64, end_time: u64, word: Seq<char>) -> SpecWord {
    SpecWord { start_time, end_time, word, roman_word: Seq::empty() }
}

/// A line that holds only `words`, with the given flags.
pub open spec fn words_line(words: Seq<SpecWord>, is_bg: bool, is_duet: bool) -> SpecLine {
    SpecLine { words, is_bg, is_duet, ..empty_line() }
}

impl Default for LyricWordOwned {
    fn default() -> (r: Self)
        ensures
            r@ == empty_word(),
    {
        LyricWordOwned {
            start_time: 0,
            end_time: 0,
            word: String::new(),
            roman_word: String::new(),
        }
    }
}

impl Default for LyricLineOwned {
    fn default() -> (r: Self)
        ensures
            r@ == empty_line(),
    {
        let r = LyricLineOwned {
            words: Vec::new(),
            translated_lyric: String::new(),
            roman_lyric: String::new(),
            is_bg: false,
            is_duet: false,
            start_time: 0,
            end_time: 0,
        };
        assert(r@.words =~= Seq::<SpecWord>::empty());
        r
    }
}

impl LyricWordOwned {
    /// A word with the given times and text and no romanization.
    pub fn plain(start_time: u64, end_time: u64, word: String) -> (r: Self)
        ensures
            r@ == plain_word(start_time, end_time, word@),
    {
        LyricWordOwned { start_time, end_time, word, roman_word: String::new() }
    }

    /// A copy of this word.
    pub fn duplicate(&self) -> (r: Self)
        ensures
            r@ == self@,
    {
        LyricWordOwned {
            start_time: self.start_time,
            end_time: self.end_time,
            word: copy_string(&self.word),
            roman_word: copy_string(&self.roman_word),
        }
    }
}

/// A copy of a list of words.
pub fn copy_words(v: &Vec<LyricWordOwned>) -> (r: Vec<LyricWordOwned>)
    ensures
        words_view(r@) == words_view(v@),
{
    let mut r: Vec<LyricWordOwned> = Vec::new();
    let mut i: usize = 0;
    while i < v.len()
        invariant
            i <= v.len(),
            words_view(r@) == words_view(v@.take(i as int)),
        decreases v.len() - i,
    {
        let w = v[i].duplicate();
        let ghost prev = r@;
        r.push(w);
        assert(words_view(r@) =~= words_view(prev).push(w@));
        assert(words_view(v@.take(i + 1)) =~= words_view(v@.take(i as int)).push(v@[i as int]@));
        i += 1;
    }
    assert(v@.take(v.len() as int) =~= v@);
    r
}

impl LyricLineOwned {
    /// A line that holds only `words`, with the given flags.
    pub fn from_words(words: Vec<LyricWordOwned>, is_bg: bool, is_duet: bool) -> (r: Self)
        ensures
            r@ == words_line(words_view(words@), is_bg, is_duet),
    {
        LyricLineOwned {
            words,
            translated_lyric: String::new(),
            roman_lyric: String::new(),
            is_bg,
            is_duet,
            start_time: 0,
            end_time: 0,
        }
    }

    /// A copy of this line.
    pub fn duplicate(&self) -> (r: Self)
        ensures
            r@ == self@,
    {
        LyricLineOwned {
            words: copy_words(&self.words),
            translated_lyric: copy_string(&self.translated_lyric),
            roman_lyric: copy_string(&self.roman_lyric),
            is_bg: self.is_bg,
            is_duet: self.is_duet,
            start_time: self.start_time,
            end_time: self.end_time,
        }
    }
}

/// Every `from` in `s` replaced by `to`.
pub open spec fn replace_char(s: Seq<char>, from: char, to: char) -> Seq<char> {
    s.map_values(|c: char| if c == from { to } else { c })
}

/// Lyric text with typographic apostrophes (U+2019) turned into ASCII ones.
pub open spec fn normalized_text(s: Seq<char>) -> Seq<char> {
    replace_char(s, '\u{2019}', '\'')
}

/// What `regex::Regex::new(pattern)` and then `Regex::replace_all(text, rep)`
/// make of `text`, or `None` where the pattern does not compile.
pub uninterp spec fn regex_replaced(pattern: Seq<char>, text: Seq<char>, rep: Seq<char>) -> Option<Seq<char>>;

/// The characters that regex syntax gives a meaning (`regex_syntax::is_meta_character`).
pub open spec fn regex_meta(c: char) -> bool {
    c == '\\' || c == '.' || c == '+' || c == '*' || c == '?' || c == '(' || c == ')' || c == '|' || c == '['
        || c == ']' || c == '{' || c == '}' || c == '^' || c == '$' || c == '#' || c == '&' || c == '-' || c
        == '~'
}

/// `regex::Regex::new` and `Regex::replace_all`: the text with every match of
/// the pattern replaced, or `None` where the pattern does not compile. The
/// result is named. Per the regex crate's documentation, a pattern made of
/// one character that is not a meta character compiles and matches exactly
/// that character, `replace_all` replaces every non-overlapping match, and a
/// replacement without `$` is inserted literally: for a one-character
/// pattern and replacement of that kind, every occurrence of the one becomes
/// the other and nothing else changes.
#[verifier::external_body]
fn regex_replace_all(pattern: &str, text: &str, rep: &str) -> (r: Option<String>)
    ensures
        match r {
            Some(t) => regex_replaced(pattern@, text@, rep@) == Some(t@),
            None => regex_replaced(pattern@, text@, rep@) is None,
        },
        pattern@.len() == 1 && !regex_meta(pattern@[0]) && rep@.len() == 1 && rep@[0] != '$' ==> r is Some
            && r->0@ == replace_char(text@, pattern@[0], rep@[0]),
{
    match regex::Regex::new(pattern) {
        Ok(re) => Some(re.replace_all(text, rep).into_owned()),
        Err(_) => None,
    }
}

/// Replaces typographic apostrophes by ASCII ones.
pub fn normalize_lyric_text(text: &str) -> (r: String)
    ensures
        r@ == normalized_text(text@),
{
    let pattern = "\u{2019}";
    let rep = "'";
    proof {
        reveal_strlit("\u{2019}");
        reveal_strlit("'");
    }
    match regex_replace_all(pattern, text, rep) {
        Some(t) => t,
        None => String::new(),
    }
}

// ----------------------------------------------------------------------------
// Stable sorting of lines
// ----------------------------------------------------------------------------

/// Sort key of a line: the start of its first word (`-1` when it has none), or
/// its own start time.
pub open spec fn line_key(l: SpecLine, by_first_word: bool) -> int {
    if by_first_word {
        if l.words.len() == 0 {
            -1
        } else {
            l.words[0].start_time as int
        }
    } else {
        l.start_time as int
    }
}

/// `t` with `x` inserted after every element whose key is at most `x`'s.
pub open spec fn insert_sorted(t: Seq<SpecLine>, x: SpecLine, by: bool) -> Seq<SpecLine>
    decreases t.len(),
{
    if t.len() == 0 {
        seq![x]
    } else if line_key(t.last(), by) <= line_key(x, by) {
        t.push(x)
    } else {
        insert_sorted(t.drop_last(), x, by).push(t.last())
    }
}

/// The stable sort of `s` by `line_key`: equal keys keep their order.
pub open spec fn stable_sort(s: Seq<SpecLine>, by: bool) -> Seq<SpecLine>
    decreases s.len(),
{
    if s.len() == 0 {
        s
    } else {
        insert_sorted(stable_sort(s.drop_last(), by), s.last(), by)
    }
}

pub open spec fn sorted_by_key(s: Seq<SpecLine>, by: bool) -> bool {
    forall|i: int, j: int| 0 <= i <= j < s.len() ==> line_key(s[i], by) <= line_key(s[j], by)
}

proof fn lemma_insert_at(t: Seq<SpecLine>, x: SpecLine, by: bool, p: int)
    requires
        0 <= p <= t.len(),
        forall|j: int| p <= j < t.len() ==> line_key(#[trigger] t[j], by) > line_key(x, by),
        p == 0 || line_key(t[p - 1], by) <= line_key(x, by),
    ensures
        insert_sorted(t, x, by) == t.take(p).push(x) + t.skip(p),
    decreases t.len(),
{
    if t.len() == p {
        assert(t.take(p).push(x) + t.skip(p) =~= t.push(x));
        if t.len() == 0 {
            assert(t.push(x) =~= seq![x]);
        }
    } else {
        assert(line_key(t[t.len() - 1], by) > line_key(x, by));
        let u = t.drop_last();
        assert forall|j: int| p <= j < u.len() implies line_key(#[trigger] u[j], by) > line_key(x, by) by {
            assert(u[j] == t[j]);
        }
        lemma_insert_at(u, x, by, p);
        assert(u.take(p).push(x) + u.skip(p) + seq![t.last()] =~= t.take(p).push(x) + t.skip(p));
    }
}

/// The lines of `s` whose key is `k`, in order.
pub open spec fn with_key(s: Seq<SpecLine>, by: bool, k: int) -> Seq<SpecLine> {
    s.filter(|l: SpecLine| line_key(l, by) == k)
}

proof fn lemma_with_key_push(s: Seq<SpecLine>, x: SpecLine, by: bool, k: int)
    ensures
        with_key(s.push(x), by, k) == (if line_key(x, by) == k { with_key(s, by, k).push(x) } else { with_key(s, by, k) }),
{
    reveal_with_fuel(Seq::filter, 1);
    assert(s.push(x).drop_last() =~= s);
    assert(s.push(x).last() == x);
}

proof fn lemma_insert_sorted_facts(t: Seq<SpecLine>, x: SpecLine, by: bool)
    ensures
        insert_sorted(t, x, by).to_multiset() == t.to_multiset().insert(x),
        sorted_by_key(t, by) ==> sorted_by_key(insert_sorted(t, x, by), by),
        forall|k: int|
            #[trigger] with_key(insert_sorted(t, x, by), by, k) == (if line_key(x, by) == k {
                with_key(t, by, k).push(x)
            } else {
                with_key(t, by, k)
            }),
    decreases t.len(),
{
    broadcast use vstd::seq_lib::group_to_multiset_ensures;

    if t.len() == 0 {
        assert(seq![x] =~= t.push(x));
        assert forall|k: int| #[trigger] with_key(insert_sorted(t, x, by), by, k) == (if line_key(x, by) == k {
            with_key(t, by, k).push(x)
        } else {
            with_key(t, by, k)
        }) by {
            lemma_with_key_push(t, x, by, k);
        }
    } else if line_key(t.last(), by) <= line_key(x, by) {
        assert forall|k: int| #[trigger] with_key(insert_sorted(t, x, by), by, k) == (if line_key(x, by) == k {
            with_key(t, by, k).push(x)
        } else {
            with_key(t, by, k)
        }) by {
            lemma_with_key_push(t, x, by, k);
        }
    } else {
        let u = t.drop_last();
        let y = t.last();
        assert(u.push(y) =~= t);
        lemma_insert_sorted_facts(u, x, by);
        let v = insert_sorted(u, x, by);
        assert(v.to_multiset().insert(y) =~= t.to_multiset().insert(x));
        if sorted_by_key(t, by) {
            assert forall|i: int, j: int| 0 <= i <= j < u.len() implies line_key(u[i], by) <= line_key(u[j], by) by {
                assert(u[i] == t[i] && u[j] == t[j]);
            }
            let w = v.push(y);
            assert forall|i: int, j: int| 0 <= i <= j < w.len() implies line_key(w[i], by) <= line_key(w[j], by) by {
                if j == w.len() - 1 && i < j {
                    assert(v.to_multiset().count(v[i]) > 0);
                    assert(v.contains(v[i]));
                    if v[i] == x {
                    } else {
                        assert(u.to_multiset().count(v[i]) > 0);
                        assert(u.contains(v[i]));
                        let m = choose|m: int| 0 <= m < u.len() && u[m] == v[i];
                        assert(u[m] == t[m]);
                    }
                }
            }
        }
        assert forall|k: int| #[trigger] with_key(insert_sorted(t, x, by), by, k) == (if line_key(x, by) == k {
            with_key(t, by, k).push(x)
        } else {
            with_key(t, by, k)
        }) by {
            lemma_with_key_push(v, y, by, k);
            lemma_with_key_push(u, y, by, k);
            assert(with_key(v, by, k) == (if line_key(x, by) == k { with_key(u, by, k).push(x) } else { with_key(u, by, k) }));
        }
    }
}

/// The stable sort is a sort: its result is ordered by key, holds the same
/// lines, and keeps the order of the lines with any one key.
pub proof fn lemma_stable_sort_sorts(s: Seq<SpecLine>, by: bool)
    ensures
        stable_sort(s, by).to_multiset() == s.to_multiset(),
        sorted_by_key(stable_sort(s, by), by),
        forall|k: int| #[trigger] with_key(stable_sort(s, by), by, k) == with_key(s, by, k),
    decreases s.len(),
{
    broadcast use vstd::seq_lib::group_to_multiset_ensures;

    if s.len() == 0 {
    } else {
        let u = s.drop_last();
        let x = s.last();
        assert(u.push(x) =~= s);
        lemma_stable_sort_sorts(u, by);
        lemma_insert_sorted_facts(stable_sort(u, by), x, by);
        assert forall|k: int| #[trigger] with_key(stable_sort(s, by), by, k) == with_key(s, by, k) by {
            lemma_with_key_push(u, x, by, k);
            assert(with_key(stable_sort(u, by), by, k) == with_key(u, by, k));
        }
    }
}

/// Whether `a` sorts strictly after `b`.
fn key_after(a: &LyricLineOwned, b: &LyricLineOwned, by: bool) -> (r: bool)
    ensures
        r == (line_key(a@, by) > line_key(b@, by)),
{
    if by {
        if b.words.len() == 0 {
            a.words.len() > 0
        } else if a.words.len() == 0 {
            false
        } else {
            a.words[0].start_time > b.words[0].start_time
        }
    } else {
        a.start_time > b.start_time
    }
}

/// Stable insertion sort of `lines` by `line_key`.
pub fn sort_lines(lines: Vec<LyricLineOwned>, by: bool) -> (r: Vec<LyricLineOwned>)
    ensures
        lines_view(r@) == stable_sort(lines_view(lines@), by),
{
    let ghost input = lines_view(lines@);
    let mut out: Vec<LyricLineOwned> = Vec::new();
    let mut rest = lines;
    let n = rest.len();
    assert(input.skip(0) =~= input);
    let mut i: usize = 0;
    while i < n
        invariant
            i <= n,
            n == input.len(),
            lines_view(rest@) == input.skip(i as int),
            rest.len() == n - i,
            lines_view(out@) == stable_sort(input.take(i as int), by),
        decreases n - i,
    {
        let ghost before = rest@;
        let x = rest.remove(0);
        proof {
            lemma_lines_view_remove_first(before);
        }
        assert(lines_view(rest@) =~= input.skip(i + 1));
        assert(x@ == input[i as int]);
        let mut p = out.len();
        while p > 0 && key_after(&out[p - 1], &x, by)
            invariant
                p <= out.len(),
                forall|j: int| p <= j < out.len() ==> line_key(#[trigger] out@[j]@, by) > line_key(x@, by),
            decreases p,
        {
            p -= 1;
        }
        let ghost t = lines_view(out@);
        proof {
            assert forall|j: int| p <= j < t.len() implies line_key(#[trigger] t[j], by) > line_key(x@, by) by {
                assert(t[j] == out@[j]@);
            }
            if p > 0 {
                assert(t[p - 1] == out@[p - 1]@);
            }
            lemma_insert_at(t, x@, by, p as int);
            assert(input.take(i + 1).drop_last() =~= input.take(i as int));
        }
        let ghost xv = x@;
        out.insert(p, x);
        assert(lines_view(out@) =~= t.take(p as int).push(xv) + t.skip(p as int));
        i += 1;
    }
    assert(input.take(n as int) =~= input);
    out
}

// ----------------------------------------------------------------------------
// process_lyrics
// ----------------------------------------------------------------------------

pub open spec fn min_u64(a: u64, b: u64) -> u64 {
    if a <= b { a } else { b }
}

pub open spec fn clamp_word(w: SpecWord) -> SpecWord {
    SpecWord {
        start_time: min_u64(w.start_time, MAX_LRC_TIMESTAMP),
        end_time: min_u64(w.end_time, MAX_LRC_TIMESTAMP),
        ..w
    }
}

/// First pass of `process_lyrics` on one line: line times follow the first and
/// last word, and every time is clamped to `MAX_LRC_TIMESTAMP`.
pub open spec fn clamp_line(l: SpecLine) -> SpecLine {
    let start = if l.words.len() > 0 { l.words[0].start_time } else { l.start_time };
    let word_end = if l.words.len() > 0 { l.words.last().end_time } else { 0 };
    SpecLine {
        start_time: min_u64(start, MAX_LRC_TIMESTAMP),
        end_time: if word_end > 0 { min_u64(word_end, MAX_LRC_TIMESTAMP) } else { min_u64(l.end_time, MAX_LRC_TIMESTAMP) },
        words: l.words.map_values(|w: SpecWord| clamp_word(w)),
        ..l
    }
}

/// Second pass on line `i`: a zero end takes the next line's start, or this
/// line's start plus five seconds for the last line; a zero end of the last
/// word is filled the same way.
pub open spec fn fill_end(s: Seq<SpecLine>, i: int) -> SpecLine {
    let l = s[i];
    if l.end_time == 0 {
        let next = if i + 1 < s.len() {
            s[i + 1].start_time
        } else {
            if l.start_time + 5000 > u64::MAX { u64::MAX } else { (l.start_time + 5000) as u64 }
        };
        let e = min_u64(next, MAX_LRC_TIMESTAMP);
        SpecLine {
            end_time: e,
            words: if l.words.len() > 0 && l.words.last().end_time == 0 {
                l.words.update(l.words.len() - 1, SpecWord { end_time: e, ..l.words.last() })
            } else {
                l.words
            },
            ..l
        }
    } else {
        l
    }
}

/// What `process_lyrics` makes of `lines`.
pub open spec fn processed(lines: Seq<SpecLine>) -> Seq<SpecLine> {
    let c = stable_sort(lines, true).map_values(|l: SpecLine| clamp_line(l));
    Seq::new(c.len(), |i: int| fill_end(c, i))
}

/// A word with its times cleared.
pub open spec fn untimed_word(w: SpecWord) -> SpecWord {
    SpecWord { start_time: 0, end_time: 0, ..w }
}

/// A line with its own and its words' times cleared: what it holds besides times.
pub open spec fn untimed(l: SpecLine) -> SpecLine {
    SpecLine { start_time: 0, end_time: 0, words: l.words.map_values(|w: SpecWord| untimed_word(w)), ..l }
}

/// Whether every time of the line and of its words is at most `MAX_LRC_TIMESTAMP`.
pub open spec fn times_capped(l: SpecLine) -> bool {
    &&& l.start_time <= MAX_LRC_TIMESTAMP
    &&& l.end_time <= MAX_LRC_TIMESTAMP
    &&& forall|j: int|
        0 <= j < l.words.len() ==> (#[trigger] l.words[j]).start_time <= MAX_LRC_TIMESTAMP
            && l.words[j].end_time <= MAX_LRC_TIMESTAMP
}

/// Post-processing sorts and clamps: the result is the stable sort of the
/// lines by the start of their first word, each line keeping everything but
/// its times; every time is at most `MAX_LRC_TIMESTAMP`; a line with words
/// starts where its first word starts (the first word's start, clamped), and
/// ends where its last word ends when that end is set.
pub proof fn lemma_process_lyrics_sorts_and_clamps(lines: Seq<SpecLine>)
    ensures
        processed(lines).len() == lines.len(),
        stable_sort(lines, true).to_multiset() == lines.to_multiset(),
        sorted_by_key(stable_sort(lines, true), true),
        forall|k: int| #[trigger] with_key(stable_sort(lines, true), true, k) == with_key(lines, true, k),
        forall|i: int|
            0 <= i < lines.len() ==> untimed(#[trigger] processed(lines)[i]) == untimed(stable_sort(lines, true)[i])
                && times_capped(processed(lines)[i]),
        forall|i: int|
            0 <= i < lines.len() && (#[trigger] processed(lines)[i]).words.len() > 0 ==> processed(lines)[i].start_time
                == processed(lines)[i].words[0].start_time && processed(lines)[i].start_time == min_u64(
                stable_sort(lines, true)[i].words[0].start_time,
                MAX_LRC_TIMESTAMP,
            ),
        forall|i: int|
            0 <= i < lines.len() && (#[trigger] processed(lines)[i]).words.len() > 0
                && processed(lines)[i].words.last().end_time > 0 ==> processed(lines)[i].end_time == processed(
                lines,
            )[i].words.last().end_time,
{
    broadcast use vstd::seq_lib::group_to_multiset_ensures;

    lemma_stable_sort_sorts(lines, true);
    let o = stable_sort(lines, true);
    let c = o.map_values(|l: SpecLine| clamp_line(l));
    let p = processed(lines);
    assert(o.len() == lines.len()) by {
        assert(o.to_multiset().len() == lines.to_multiset().len());
    }
    assert forall|i: int| 0 <= i < lines.len() implies untimed(#[trigger] p[i]) == untimed(o[i]) && times_capped(p[i])
        && (p[i].words.len() > 0 ==> p[i].start_time == p[i].words[0].start_time && p[i].start_time == min_u64(
        o[i].words[0].start_time,
        MAX_LRC_TIMESTAMP,
    )) && (p[i].words.len() > 0 && p[i].words.last().end_time > 0 ==> p[i].end_time == p[i].words.last().end_time) by {
        let l = o[i];
        let cl = c[i];
        assert(cl == clamp_line(l));
        assert(p[i] == fill_end(c, i));
        assert(untimed(cl).words =~= untimed(l).words) by {
            assert forall|j: int| 0 <= j < l.words.len() implies untimed(cl).words[j] == untimed(l).words[j] by {
                assert(cl.words[j] == clamp_word(l.words[j]));
            }
        }
        assert forall|j: int| 0 <= j < cl.words.len() implies (#[trigger] cl.words[j]).start_time <= MAX_LRC_TIMESTAMP
            && cl.words[j].end_time <= MAX_LRC_TIMESTAMP by {
            assert(cl.words[j] == clamp_word(l.words[j]));
        }
        if cl.end_time == 0 {
            let pl = p[i];
            assert(untimed(pl).words =~= untimed(cl).words);
            assert forall|j: int| 0 <= j < pl.words.len() implies (#[trigger] pl.words[j]).start_time <= MAX_LRC_TIMESTAMP
                && pl.words[j].end_time <= MAX_LRC_TIMESTAMP by {
                assert(cl.words[j].start_time <= MAX_LRC_TIMESTAMP);
            }
            if cl.words.len() > 0 {
                assert(pl.words[0].start_time == cl.words[0].start_time);
            }
        }
    }
}

fn min_time(a: u64) -> (r: u64)
    ensures
        r == min_u64(a, MAX_LRC_TIMESTAMP),
{
    if a <= MAX_LRC_TIMESTAMP { a } else { MAX_LRC_TIMESTAMP }
}

fn clamp_line_exec(line: LyricLineOwned) -> (r: LyricLineOwned)
    ensures
        r@ == clamp_line(line@),
{
    let mut line = line;
    let ghost l0 = line@;
    let n = line.words.len();
    let start = if n > 0 { line.words[0].start_time } else { line.start_time };
    let word_end = if n > 0 { line.words[n - 1].end_time } else { 0 };
    line.start_time = min_time(start);
    if word_end > 0 {
        line.end_time = min_time(word_end);
    } else {
        line.end_time = min_time(line.end_time);
    }
    let mut words: Vec<LyricWordOwned> = Vec::new();
    std::mem::swap(&mut words, &mut line.words);
    assert(words_view(words@) == l0.words);
    let mut out: Vec<LyricWordOwned> = Vec::new();
    let m = words.len();
    assert(l0.words.skip(0) =~= l0.words);
    let mut k: usize = 0;
    while k < m
        invariant
            k <= m,
            m == l0.words.len(),
            words_view(words@) == l0.words.skip(k as int),
            words.len() == m - k,
            words_view(out@) == l0.words.take(k as int).map_values(|w: SpecWord| clamp_word(w)),
        decreases m - k,
    {
        let ghost before = words@;
        let mut w = words.remove(0);
        proof {
            lemma_words_view_remove_first(before);
        }
        assert(words_view(words@) =~= l0.words.skip(k + 1));
        assert(w@ == l0.words[k as int]);
        w.start_time = min_time(w.start_time);
        w.end_time = min_time(w.end_time);
        let ghost prev = out@;
        out.push(w);
        assert(words_view(out@) =~= words_view(prev).push(w@));
        assert(l0.words.take(k + 1).map_values(|w: SpecWord| clamp_word(w)) =~= l0.words.take(
            k as int,
        ).map_values(|w: SpecWord| clamp_word(w)).push(clamp_word(l0.words[k as int])));
        k += 1;
    }
    assert(l0.words.take(m as int) =~= l0.words);
    line.words = out;
    assert(line@.words =~= clamp_line(l0).words);
    line
}

fn fill_end_exec(line: LyricLineOwned, next: Option<u64>) -> (r: LyricLineOwned)
    ensures
        forall|s: Seq<SpecLine>, i: int|
            0 <= i < s.len() && s[i] == line@ && (match next {
                Some(v) => i + 1 < s.len() && s[i + 1].start_time == v,
                None => i + 1 == s.len(),
            }) ==> r@ == fill_end(s, i),
{
    let mut line = line;
    let ghost l0 = line@;
    if line.end_time == 0 {
        let nx = match next {
            Some(v) => v,
            None => line.start_time.saturating_add(5000),
        };
        let e = min_time(nx);
        line.end_time = e;
        let n = line.words.len();
        if n > 0 && line.words[n - 1].end_time == 0 {
            let mut w = line.words.pop().unwrap();
            w.end_time = e;
            line.words.push(w);
            assert(line@.words =~= l0.words.update(n - 1, SpecWord { end_time: e, ..l0.words.last() }));
        }
    }
    line
}

/// Process lyrics lines: sort by the first word's start time (stable) and clamp
/// times, then give lines without an end the next line's start.
pub fn process_lyrics(lines: &mut Vec<LyricLineOwned>)
    ensures
        lines_view(final(lines)@) == processed(lines_view(old(lines)@)),
{
    let mut taken: Vec<LyricLineOwned> = Vec::new();
    std::mem::swap(&mut taken, lines);
    let sorted = sort_lines(taken, true);
    let ghost st = lines_view(sorted@);
    let ghost c = st.map_values(|l: SpecLine| clamp_line(l));
    let mut src = sorted;
    let n = src.len();
    assert(st.skip(0) =~= st);
    let mut starts: Vec<u64> = Vec::new();
    let mut clamped: Vec<LyricLineOwned> = Vec::new();
    let mut k: usize = 0;
    while k < n
        invariant
            k <= n,
            n == st.len(),
            c.len() == n,
            c == st.map_values(|l: SpecLine| clamp_line(l)),
            lines_view(src@) == st.skip(k as int),
            src.len() == n - k,
            lines_view(clamped@) == c.take(k as int),
            starts@.len() == k,
            forall|j: int| 0 <= j < k ==> #[trigger] starts@[j] == c[j].start_time,
        decreases n - k,
    {
        let ghost before = src@;
        let x = src.remove(0);
        proof {
            lemma_lines_view_remove_first(before);
        }
        assert(lines_view(src@) =~= st.skip(k + 1));
        assert(x@ == st[k as int]);
        let y = clamp_line_exec(x);
        assert(y@ == c[k as int]);
        starts.push(y.start_time);
        let ghost prev = clamped@;
        clamped.push(y);
        assert(lines_view(clamped@) =~= lines_view(prev).push(y@));
        assert(c.take(k + 1) =~= c.take(k as int).push(c[k as int]));
        k += 1;
    }
    assert(c.take(n as int) =~= c);
    let ghost target = Seq::new(c.len(), |i: int| fill_end(c, i));
    let mut out: Vec<LyricLineOwned> = Vec::new();
    let mut k: usize = 0;
    while k < n
        invariant
            k <= n,
            n == c.len(),
            starts@.len() == n,
            forall|j: int| 0 <= j < n ==> #[trigger] starts@[j] == c[j].start_time,
            lines_view(clamped@) == c.skip(k as int),
            clamped.len() == n - k,
            lines_view(out@) == target.take(k as int),
            target == Seq::new(c.len(), |i: int| fill_end(c, i)),
        decreases n - k,
    {
        let ghost before = clamped@;
        let x = clamped.remove(0);
        proof {
            lemma_lines_view_remove_first(before);
        }
        assert(lines_view(clamped@) =~= c.skip(k + 1));
        assert(x@ == c[k as int]);
        let next = if k + 1 < n { Some(starts[k + 1]) } else { None };
        let y = fill_end_exec(x, next);
        assert(y@ == fill_end(c, k as int));
        let ghost prev = out@;
        out.push(y);
        assert(lines_view(out@) =~= lines_view(prev).push(y@));
        assert(target.take(k + 1) =~= target.take(k as int).push(target[k as int]));
        k += 1;
    }
    assert(target.take(n as int) =~= target);
    *lines = out;
}

} // verus!
