//! Lyrics format detection from the content.

use vstd::prelude::*;

use crate::lyrics::types::LyricsFormat;
use crate::text::{
    all_ascii_digits, all_digits, chars_of, contains_char, contains_seq, find, find_char,
    has_char, is_ascii_digit, is_digit, lemma_find, lemma_find_at, lemma_find_none, lemma_split_append_plain, lemma_trim_start_skip, occurs_at, is_ws, lines_chars, lines_of, seq_contains,
    seq_starts_with, split, split_chars, starts_with, subvec, trim, trim_chars, trim_start,
    trim_start_chars, views,
};

verus! {

/// `[header]rest` at the start of `line`: the header and what follows the first `]`.
pub open spec fn bracket_prefix(line: Seq<char>) -> Option<(Seq<char>, Seq<char>)> {
    if line.len() > 0 && line[0] == '[' {
        match find(line, ']') {
            Some(e) => Some((line.subrange(1, e), line.skip(e + 1))),
            None => None,
        }
    } else {
        None
    }
}

/// A `start,duration` header of two non-empty digit runs.
pub open spec fn word_timed_header(h: Seq<char>) -> bool {
    match find(h, ',') {
        Some(c) => {
            let a = h.take(c);
            let b = h.skip(c + 1);
            a.len() > 0 && b.len() > 0 && all_digits(a) && all_digits(b)
        },
        None => false,
    }
}

/// A piece of an LRC timestamp: digits and dots with at least one digit.
pub open spec fn stamp_part(p: Seq<char>) -> bool {
    &&& p.len() > 0
    &&& forall|j: int| 0 <= j < p.len() ==> is_digit(#[trigger] p[j]) || p[j] == '.'
    &&& exists|j: int| 0 <= j < p.len() && is_digit(#[trigger] p[j])
}

/// At least two `:`-separated timestamp pieces.
pub open spec fn lrc_header(h: Seq<char>) -> bool {
    let parts = split(h, ':');
    parts.len() >= 2 && forall|i: int| 0 <= i < parts.len() ==> stamp_part(#[trigger] parts[i])
}

/// At least two `[`, and no `[...]` piece other than the last one (by text)
/// ends right at its `]`: timestamps interleaved with words.
pub open spec fn eslrc_like(line: Seq<char>) -> bool {
    let parts = split(line, '[');
    parts.len() >= 3 && forall|k: int|
        1 <= k < parts.len() ==> !(find(#[trigger] parts[k], ']') matches Some(bp) && parts[k].skip(bp + 1).len() == 0
            && parts[k] != parts.last())
}

/// What one candidate line (trimmed, starting with `[`) says about the format.
pub open spec fn line_format(line: Seq<char>) -> Option<LyricsFormat> {
    let by_prefix = match bracket_prefix(line) {
        Some((h, after0)) => {
            let after = trim_start(after0);
            if word_timed_header(h) && after.len() > 0 && after[0] == '(' && contains_seq(after, ",0)"@) {
                Some(LyricsFormat::Yrc)
            } else if word_timed_header(h) && contains_char(after, '(') && contains_char(after, ')')
                && !contains_seq(after, ",0)"@) {
                Some(LyricsFormat::Qrc)
            } else if line.len() >= 3 && is_digit(line[1]) && line[2] == ']' {
                Some(LyricsFormat::Lys)
            } else {
                None
            }
        },
        None => None,
    };
    if by_prefix is Some {
        by_prefix
    } else if eslrc_like(line) {
        Some(LyricsFormat::EsLrc)
    } else if bracket_prefix(line) matches Some((h, a)) && lrc_header(h) {
        Some(LyricsFormat::Lrc)
    } else {
        None
    }
}

/// The verdict of the first decisive line among those that start with `[`.
pub open spec fn scan_format(ls: Seq<Seq<char>>) -> LyricsFormat
    decreases ls.len(),
{
    if ls.len() == 0 {
        LyricsFormat::Unknown
    } else {
        let l = trim(ls[0]);
        if l.len() > 0 && l[0] == '[' {
            match line_format(l) {
                Some(f) => f,
                None => scan_format(ls.drop_first()),
            }
        } else {
            scan_format(ls.drop_first())
        }
    }
}

/// The format that `detect_format` reports for `content`.
pub open spec fn spec_detect_format(content: Seq<char>) -> LyricsFormat {
    let t = trim(content);
    if starts_with(t, "[Lyricify Quick Export]"@) || contains_seq(t, "[lyrics: format@Lyricify Syllable]"@) {
        LyricsFormat::Lqe
    } else if starts_with(t, "<?xml"@) || starts_with(t, "<tt"@) {
        LyricsFormat::Ttml
    } else {
        scan_format(lines_of(t))
    }
}

/// `[a,b]rest` with `a` and `b` digit runs: its header is `a,b` (a word-timed
/// header) and what follows is `rest`.
proof fn lemma_word_timed_prefix(a: Seq<char>, b: Seq<char>, rest: Seq<char>)
    requires
        a.len() > 0,
        b.len() > 0,
        all_digits(a),
        all_digits(b),
    ensures
        bracket_prefix(seq!['['] + a + seq![','] + b + seq![']'] + rest) == Some((a + seq![','] + b, rest)),
        word_timed_header(a + seq![','] + b),
{
    let line = seq!['['] + a + seq![','] + b + seq![']'] + rest;
    let e: int = (a.len() + b.len() + 2) as int;
    assert(line[e] == ']');
    assert forall|j: int| 0 <= j < e implies line[j] != ']' by {
        if 1 <= j <= a.len() {
            assert(line[j] == a[j - 1]);
            assert(is_digit(a[j - 1]));
        } else if a.len() + 2 <= j {
            assert(line[j] == b[j - a.len() - 2]);
            assert(is_digit(b[j - a.len() - 2]));
        }
    }
    lemma_find_at(line, ']', e);
    assert(line.subrange(1, e) =~= a + seq![','] + b);
    assert(line.skip(e + 1) =~= rest);
    let h = a + seq![','] + b;
    assert forall|j: int| 0 <= j < a.len() implies h[j] != ',' by {
        assert(h[j] == a[j]);
        assert(is_digit(a[j]));
    }
    lemma_find_at(h, ',', a.len() as int);
    assert(h.take(a.len() as int) =~= a);
    assert(h.skip(a.len() as int + 1) =~= b);
}

/// What a word-timed first line says about the whole text: the text's
/// format is the verdict of that line.
proof fn lemma_first_line_decides(content: Seq<char>, line: Seq<char>, f: LyricsFormat)
    requires
        lines_of(trim(content)).len() > 0,
        trim(lines_of(trim(content))[0]) == line,
        line.len() > 0 && line[0] == '[',
        line_format(line) == Some(f),
        !starts_with(trim(content), "[Lyricify Quick Export]"@),
        !contains_seq(trim(content), "[lyrics: format@Lyricify Syllable]"@),
        !starts_with(trim(content), "<?xml"@),
        !starts_with(trim(content), "<tt"@),
    ensures
        spec_detect_format(content) == f,
{
}

/// A text whose first line is a `[start,duration]` header followed by words
/// with `(start,duration)` markers (parentheses, and no `,0)`) is QRC.
pub proof fn lemma_word_timed_line_without_zero_fields_is_qrc(
    content: Seq<char>,
    a: Seq<char>,
    b: Seq<char>,
    rest: Seq<char>,
)
    requires
        lines_of(trim(content)).len() > 0,
        trim(lines_of(trim(content))[0]) == seq!['['] + a + seq![','] + b + seq![']'] + rest,
        a.len() > 0 && b.len() > 0 && all_digits(a) && all_digits(b),
        rest.contains('('),
        rest.contains(')'),
        !contains_seq(rest, ",0)"@),
        !starts_with(trim(content), "[Lyricify Quick Export]"@),
        !contains_seq(trim(content), "[lyrics: format@Lyricify Syllable]"@),
        !starts_with(trim(content), "<?xml"@),
        !starts_with(trim(content), "<tt"@),
    ensures
        spec_detect_format(content) == LyricsFormat::Qrc,
{
    reveal_strlit(",0)");
    let line = seq!['['] + a + seq![','] + b + seq![']'] + rest;
    lemma_word_timed_prefix(a, b, rest);
    let k = lemma_trim_start_skip(rest);
    let after = trim_start(rest);
    let i = choose|i: int| 0 <= i < rest.len() && rest[i] == '(';
    assert(!is_ws('('));
    assert(i >= k);
    assert(after[i - k] == '(');
    let j = choose|j: int| 0 <= j < rest.len() && rest[j] == ')';
    assert(!is_ws(')'));
    assert(j >= k);
    assert(after[j - k] == ')');
    assert(!contains_seq(after, ",0)"@)) by {
        if contains_seq(after, ",0)"@) {
            let m = choose|m: int| occurs_at(after, ",0)"@, m);
            assert(rest.subrange(m + k, m + k + 3) =~= after.subrange(m, m + 3));
            assert(occurs_at(rest, ",0)"@, m + k));
        }
    }
    assert(line_format(line) == Some(LyricsFormat::Qrc));
    lemma_first_line_decides(content, line, LyricsFormat::Qrc);
}

/// A text whose first line is a `[start,duration]` header followed, after
/// any spaces, by a `(` marker, with a `,0)` among the markers, is YRC.
pub proof fn lemma_word_timed_line_with_zero_fields_is_yrc(
    content: Seq<char>,
    a: Seq<char>,
    b: Seq<char>,
    rest: Seq<char>,
)
    requires
        lines_of(trim(content)).len() > 0,
        trim(lines_of(trim(content))[0]) == seq!['['] + a + seq![','] + b + seq![']'] + rest,
        a.len() > 0 && b.len() > 0 && all_digits(a) && all_digits(b),
        trim_start(rest).len() > 0 && trim_start(rest)[0] == '(',
        contains_seq(trim_start(rest), ",0)"@),
        !starts_with(trim(content), "[Lyricify Quick Export]"@),
        !contains_seq(trim(content), "[lyrics: format@Lyricify Syllable]"@),
        !starts_with(trim(content), "<?xml"@),
        !starts_with(trim(content), "<tt"@),
    ensures
        spec_detect_format(content) == LyricsFormat::Yrc,
{
    let line = seq!['['] + a + seq![','] + b + seq![']'] + rest;
    lemma_word_timed_prefix(a, b, rest);
    assert(line_format(line) == Some(LyricsFormat::Yrc));
    lemma_first_line_decides(content, line, LyricsFormat::Yrc);
}

/// A text that starts with the Lyricify Quick Export marker is LQE; one
/// that starts with `<?xml` or `<tt` (and carries no LQE marker) is TTML.
pub proof fn lemma_marked_texts(content: Seq<char>)
    ensures
        starts_with(trim(content), "[Lyricify Quick Export]"@) ==> spec_detect_format(content) == LyricsFormat::Lqe,
        contains_seq(trim(content), "[lyrics: format@Lyricify Syllable]"@) ==> spec_detect_format(content)
            == LyricsFormat::Lqe,
        !starts_with(trim(content), "[Lyricify Quick Export]"@) && !contains_seq(
            trim(content),
            "[lyrics: format@Lyricify Syllable]"@,
        ) && (starts_with(trim(content), "<?xml"@) || starts_with(trim(content), "<tt"@)) ==> spec_detect_format(
            content,
        ) == LyricsFormat::Ttml,
{
}

/// A text whose first line is `[mm:ss]text` (two timestamp pieces of digits
/// and dots, and no `[` in the text) is LRC.
pub proof fn lemma_timestamped_line_is_lrc(content: Seq<char>, mm: Seq<char>, ss: Seq<char>, text: Seq<char>)
    requires
        lines_of(trim(content)).len() > 0,
        trim(lines_of(trim(content))[0]) == seq!['['] + mm + seq![':'] + ss + seq![']'] + text,
        stamp_part(mm),
        stamp_part(ss),
        !text.contains('['),
        !starts_with(trim(content), "[Lyricify Quick Export]"@),
        !contains_seq(trim(content), "[lyrics: format@Lyricify Syllable]"@),
        !starts_with(trim(content), "<?xml"@),
        !starts_with(trim(content), "<tt"@),
    ensures
        spec_detect_format(content) == LyricsFormat::Lrc,
{
    let h = mm + seq![':'] + ss;
    let line = seq!['['] + h + seq![']'] + text;
    assert(line =~= seq!['['] + mm + seq![':'] + ss + seq![']'] + text);
    // Pieces of digits and dots hold no `:`, `,`, `]` or `[`.
    assert forall|j: int| 0 <= j < h.len() implies h[j] != ']' && h[j] != ',' && h[j] != '[' by {
        if j < mm.len() {
            assert(h[j] == mm[j]);
            assert(is_digit(mm[j]) || mm[j] == '.');
        } else if j > mm.len() {
            assert(h[j] == ss[j - mm.len() - 1]);
            assert(is_digit(ss[j - mm.len() - 1]) || ss[j - mm.len() - 1] == '.');
        }
    }
    assert(!mm.contains(':')) by {
        if mm.contains(':') {
            let j = choose|j: int| 0 <= j < mm.len() && mm[j] == ':';
            assert(is_digit(mm[j]) || mm[j] == '.');
        }
    }
    assert(!ss.contains(':')) by {
        if ss.contains(':') {
            let j = choose|j: int| 0 <= j < ss.len() && ss[j] == ':';
            assert(is_digit(ss[j]) || ss[j] == '.');
        }
    }
    // The header.
    let e = h.len() as int + 1;
    assert(line[e] == ']');
    assert forall|j: int| 0 <= j < e implies line[j] != ']' by {
        if j >= 1 {
            assert(line[j] == h[j - 1]);
        }
    }
    lemma_find_at(line, ']', e);
    assert(line.subrange(1, e) =~= h);
    assert(line.skip(e + 1) =~= text);
    assert(bracket_prefix(line) == Some((h, text)));
    lemma_find_none(h, ',');
    assert(!word_timed_header(h));
    assert(line[2] == h[1]);
    // Its pieces.
    lemma_split_append_plain(Seq::empty(), mm, ':');
    assert(Seq::<char>::empty() + mm =~= mm);
    assert(split(Seq::<char>::empty(), ':') =~= seq![Seq::<char>::empty()]);
    assert(split(mm, ':') =~= seq![mm]);
    let mc = mm + seq![':'];
    assert(mc.drop_last() =~= mm);
    assert(split(mc, ':') =~= seq![mm, Seq::<char>::empty()]);
    lemma_split_append_plain(mc, ss, ':');
    assert(mc + ss =~= h);
    assert(split(h, ':') =~= seq![mm, ss]);
    assert(lrc_header(h));
    // Not interleaved timestamps: one `[` only.
    let rest = h + seq![']'] + text;
    assert(!rest.contains('[')) by {
        if rest.contains('[') {
            let j = choose|j: int| 0 <= j < rest.len() && rest[j] == '[';
            if j < h.len() {
                assert(rest[j] == h[j]);
            } else if j > h.len() {
                assert(rest[j] == text[j - h.len() - 1]);
            }
        }
    }
    assert(split(Seq::<char>::empty(), '[') =~= seq![Seq::<char>::empty()]);
    let open = seq!['['];
    assert(open.drop_last() =~= Seq::<char>::empty());
    assert(split(open, '[') =~= seq![Seq::<char>::empty(), Seq::<char>::empty()]);
    lemma_split_append_plain(open, rest, '[');
    assert(open + rest =~= line);
    assert(split(line, '[').len() == 2);
    assert(!eslrc_like(line));
    assert(line_format(line) == Some(LyricsFormat::Lrc));
    lemma_first_line_decides(content, line, LyricsFormat::Lrc);
}

pub fn split_bracket_prefix(line: &Vec<char>) -> (r: Option<(Vec<char>, Vec<char>)>)
    ensures
        match r {
            Some((h, a)) => bracket_prefix(line@) == Some((h@, a@)),
            None => bracket_prefix(line@) is None,
        },
{
    if line.len() == 0 || line[0] != '[' {
        return None;
    }
    let e = match find_char(line, ']') {
        Some(e) => e,
        None => return None,
    };
    proof {
        lemma_find(line@, ']');
    }
    let h = subvec(line, 1, e);
    let a = subvec(line, e + 1, line.len());
    assert(a@ =~= line@.skip(e + 1));
    Some((h, a))
}

pub fn is_word_timed_line_header(header: &Vec<char>) -> (r: bool)
    ensures
        r == word_timed_header(header@),
{
    let c = match find_char(header, ',') {
        Some(c) => c,
        None => return false,
    };
    proof {
        lemma_find(header@, ',');
    }
    assert(c < header.len());
    let a = subvec(header, 0, c);
    let b = subvec(header, c + 1, header.len());
    assert(b@ =~= header@.skip(c + 1));
    a.len() > 0 && b.len() > 0 && all_ascii_digits(&a) && all_ascii_digits(&b)
}

fn is_stamp_part(p: &Vec<char>) -> (r: bool)
    ensures
        r == stamp_part(p@),
{
    if p.len() == 0 {
        return false;
    }
    let mut any = false;
    let mut i: usize = 0;
    while i < p.len()
        invariant
            i <= p.len(),
            forall|j: int| 0 <= j < i ==> is_digit(#[trigger] p@[j]) || p@[j] == '.',
            any == exists|j: int| 0 <= j < i && is_digit(#[trigger] p@[j]),
        decreases p.len() - i,
    {
        let c = p[i];
        if !(is_ascii_digit(c) || c == '.') {
            return false;
        }
        if is_ascii_digit(c) {
            any = true;
        }
        proof {
            if any {
                if is_digit(c) {
                    assert(is_digit(p@[i as int]));
                }
            } else {
                assert forall|j: int| 0 <= j < i + 1 implies !is_digit(#[trigger] p@[j]) by {
                    if j < i {
                    }
                }
            }
        }
        i += 1;
    }
    any
}

pub fn is_lrc_timestamp_header(header: &Vec<char>) -> (r: bool)
    ensures
        r == lrc_header(header@),
{
    let parts = split_chars(header, ':');
    let ghost pv = views(parts@);
    assert(pv.len() == parts@.len());
    if parts.len() < 2 {
        return false;
    }
    let mut i: usize = 0;
    while i < parts.len()
        invariant
            i <= parts.len(),
            pv == views(parts@),
            pv == split(header@, ':'),
            forall|k: int| 0 <= k < i ==> stamp_part(#[trigger] pv[k]),
        decreases parts.len() - i,
    {
        assert(pv[i as int] == parts@[i as int]@);
        if !is_stamp_part(&parts[i]) {
            return false;
        }
        i += 1;
    }
    true
}

fn seq_eq(a: &Vec<char>, b: &Vec<char>) -> (r: bool)
    ensures
        r == (a@ == b@),
{
    if a.len() != b.len() {
        return false;
    }
    let mut i: usize = 0;
    while i < a.len()
        invariant
            a.len() == b.len(),
            i <= a.len(),
            forall|j: int| 0 <= j < i ==> a@[j] == b@[j],
        decreases a.len() - i,
    {
        if a[i] != b[i] {
            return false;
        }
        i += 1;
    }
    assert(a@ =~= b@);
    true
}

fn is_eslrc_like(line: &Vec<char>) -> (r: bool)
    ensures
        r == eslrc_like(line@),
{
    let parts = split_chars(line, '[');
    let ghost pv = views(parts@);
    assert(pv.len() == parts@.len());
    if parts.len() < 3 {
        return false;
    }
    let n = parts.len();
    assert(pv.last() == parts@[n - 1]@);
    let mut k: usize = 1;
    while k < n
        invariant
            1 <= k <= n,
            n == parts.len(),
            pv == views(parts@),
            pv == split(line@, '['),
            pv.last() == parts@[n - 1]@,
            forall|m: int|
                1 <= m < k ==> !(find(#[trigger] pv[m], ']') matches Some(bp) && pv[m].skip(bp + 1).len() == 0
                    && pv[m] != pv.last()),
        decreases n - k,
    {
        let part = &parts[k];
        assert(pv[k as int] == part@);
        match find_char(part, ']') {
            Some(bp) => {
                proof {
                    lemma_find(part@, ']');
                }
                assert(bp < part.len());
                if bp + 1 == part.len() && !seq_eq(part, &parts[n - 1]) {
                    assert(pv[k as int].skip(bp + 1).len() == 0);
                    assert(pv[k as int] != pv.last());
                    assert(find(pv[k as int], ']') matches Some(bp2) && pv[k as int].skip(bp2 + 1).len() == 0
                        && pv[k as int] != pv.last());
                    assert(!eslrc_like(line@));
                    return false;
                }
            },
            None => {},
        }
        k += 1;
    }
    true
}

/// The verdict of one candidate line.
fn line_format_exec(line: &Vec<char>) -> (r: Option<LyricsFormat>)
    ensures
        r == line_format(line@),
{
    let ghost by_prefix = match bracket_prefix(line@) {
        Some((h, after0)) => {
            let after = trim_start(after0);
            if word_timed_header(h) && after.len() > 0 && after[0] == '(' && contains_seq(after, ",0)"@) {
                Some(LyricsFormat::Yrc)
            } else if word_timed_header(h) && contains_char(after, '(') && contains_char(after, ')')
                && !contains_seq(after, ",0)"@) {
                Some(LyricsFormat::Qrc)
            } else if line@.len() >= 3 && is_digit(line@[1]) && line@[2] == ']' {
                Some(LyricsFormat::Lys)
            } else {
                None
            }
        },
        None => None,
    };
    match split_bracket_prefix(line) {
        Some((header, after0)) => {
            let after = trim_start_chars(&after0);
            let timed = is_word_timed_line_header(&header);
            let marker = chars_of(",0)");
            if timed && after.len() > 0 && after[0] == '(' && seq_contains(&after, &marker) {
                return Some(LyricsFormat::Yrc);
            }
            if timed && has_char(&after, '(') && has_char(&after, ')') && !seq_contains(&after, &marker) {
                return Some(LyricsFormat::Qrc);
            }
            if line.len() >= 3 && is_ascii_digit(line[1]) && line[2] == ']' {
                return Some(LyricsFormat::Lys);
            }
        },
        None => {},
    }
    assert(by_prefix is None);
    if is_eslrc_like(line) {
        return Some(LyricsFormat::EsLrc);
    }
    match split_bracket_prefix(line) {
        Some((header, _)) => {
            if is_lrc_timestamp_header(&header) {
                return Some(LyricsFormat::Lrc);
            }
        },
        None => {},
    }
    None
}

/// Detect lyrics format from content.
pub fn detect_format(content: &str) -> (r: LyricsFormat)
    ensures
        r == spec_detect_format(content@),
{
    let s = chars_of(content);
    let t = trim_chars(&s);
    let lqe_head = chars_of("[Lyricify Quick Export]");
    let lqe_mark = chars_of("[lyrics: format@Lyricify Syllable]");
    if seq_starts_with(&t, &lqe_head) || seq_contains(&t, &lqe_mark) {
        return LyricsFormat::Lqe;
    }
    let xml = chars_of("<?xml");
    let tt = chars_of("<tt");
    if seq_starts_with(&t, &xml) || seq_starts_with(&t, &tt) {
        return LyricsFormat::Ttml;
    }
    let ls = lines_chars(&t);
    let ghost lv = views(ls@);
    let mut i: usize = 0;
    assert(lv.skip(0) =~= lv);
    assert(spec_detect_format(content@) == scan_format(lines_of(t@)));
    while i < ls.len()
        invariant
            i <= ls.len(),
            lv == views(ls@),
            spec_detect_format(content@) == scan_format(lines_of(t@)),
            scan_format(lv.skip(i as int)) == scan_format(lines_of(t@)),
        decreases ls.len() - i,
    {
        assert(lv.skip(i as int)[0] == ls@[i as int]@);
        assert(lv.skip(i as int).drop_first() =~= lv.skip(i + 1));
        let l = trim_chars(&ls[i]);
        if l.len() > 0 && l[0] == '[' {
            match line_format_exec(&l) {
                Some(f) => {
                    assert(scan_format(lv.skip(i as int)) == f);
                    return f;
                },
                None => {},
            }
        }
        i += 1;
    }
    assert(lv.skip(i as int) =~= Seq::<Seq<char>>::empty());
    LyricsFormat::Unknown
}

} // verus!
