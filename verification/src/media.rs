//! Media discovery next to an audio file: the names under which its lyrics
//! and cover art are looked for (in priority order), and the choice of lyrics
//! among what was found. Checking which names exist is the application's part.

use vstd::prelude::*;

use crate::lyrics::display::{to_ui_lyrics, ui_lines_view, ui_lyrics, LyricLine};
use crate::lyrics::lrc::{parse_lrc_sidecar, spec_parse_lrc};
use crate::lyrics::merge::{merge_translation, merge_walk};
use crate::lyrics::types::{empty_line, lines_view, LyricLineOwned, LyricWordOwned, SpecLine, SpecWord};
use crate::lyrics::{parsable, parse_lyrics, parsed_lyrics};
use crate::text::{chars_of, copy_string, push_char, push_str, string_of, subvec, to_uppercase, trim, trim_chars, uppercase};

verus! {

pub open spec fn strs_view(v: Seq<&str>) -> Seq<Seq<char>> {
    v.map_values(|s: &str| s@)
}

pub open spec fn strings_view(v: Seq<String>) -> Seq<Seq<char>> {
    v.map_values(|s: String| s@)
}

/// Lyrics file extensions, in the order they are tried.
pub open spec fn lyrics_exts() -> Seq<Seq<char>> {
    seq!["lrc"@, "lqe"@, "yrc"@, "qrc"@, "lys"@, "ttml"@]
}

/// Common cover art file names, in priority order.
pub open spec fn cover_names() -> Seq<Seq<char>> {
    seq!["cover"@, "folder"@, "front"@, "albumart"@, "album"@, "artwork"@, "art"@, "thumb"@, "thumbnail"@]
}

/// Image extensions, in the order they are tried.
pub open spec fn image_exts() -> Seq<Seq<char>> {
    seq!["jpg"@, "jpeg"@, "png"@, "gif"@, "webp"@, "bmp"@]
}

/// Lyrics file extensions, in the order they are tried.
pub fn lyrics_extensions() -> (r: Vec<&'static str>)
    ensures
        strs_view(r@) == lyrics_exts(),
{
    let r = vec!["lrc", "lqe", "yrc", "qrc", "lys", "ttml"];
    assert(strs_view(r@) =~= lyrics_exts());
    r
}

/// Common cover art file names, in priority order.
pub fn cover_filenames() -> (r: Vec<&'static str>)
    ensures
        strs_view(r@) == cover_names(),
{
    let r = vec!["cover", "folder", "front", "albumart", "album", "artwork", "art", "thumb", "thumbnail"];
    assert(strs_view(r@) =~= cover_names());
    r
}

/// Image extensions, in the order they are tried.
pub fn image_extensions() -> (r: Vec<&'static str>)
    ensures
        strs_view(r@) == image_exts(),
{
    let r = vec!["jpg", "jpeg", "png", "gif", "webp", "bmp"];
    assert(strs_view(r@) =~= image_exts());
    r
}

/// `stem.ext`.
pub open spec fn dotted(stem: Seq<char>, ext: Seq<char>) -> Seq<char> {
    stem + seq!['.'] + ext
}

/// For each extension, `stem.ext` then `stem.EXT`.
pub open spec fn both_cases(stem: Seq<char>, exts: Seq<Seq<char>>) -> Seq<Seq<char>>
    decreases exts.len(),
{
    if exts.len() == 0 {
        Seq::empty()
    } else {
        both_cases(stem, exts.drop_last()).push(dotted(stem, exts.last())).push(dotted(stem, uppercase(exts.last())))
    }
}

/// A name with its first character uppercased.
pub open spec fn capitalized(name: Seq<char>) -> Seq<char> {
    if name.len() == 0 {
        name
    } else {
        uppercase(name.take(1)) + name.skip(1)
    }
}

/// For each extension: `name.ext`, `Name.ext`, `NAME.EXT`.
pub open spec fn three_cases(name: Seq<char>, exts: Seq<Seq<char>>) -> Seq<Seq<char>>
    decreases exts.len(),
{
    if exts.len() == 0 {
        Seq::empty()
    } else {
        three_cases(name, exts.drop_last()).push(dotted(name, exts.last())).push(
            dotted(capitalized(name), exts.last()),
        ).push(dotted(uppercase(name), uppercase(exts.last())))
    }
}

/// The common cover names in all their forms, name by name.
pub open spec fn common_covers(names: Seq<Seq<char>>) -> Seq<Seq<char>>
    decreases names.len(),
{
    if names.len() == 0 {
        Seq::empty()
    } else {
        common_covers(names.drop_last()) + three_cases(names.last(), image_exts())
    }
}

/// The file names tried for cover art, in order: an image named like the
/// audio file, then the common cover names.
pub open spec fn cover_candidate_names(stem: Option<Seq<char>>) -> Seq<Seq<char>> {
    (match stem {
        Some(s) => both_cases(s, image_exts()),
        None => Seq::empty(),
    }) + common_covers(cover_names())
}

fn dotted_exec(stem: &str, ext: &str) -> (r: String)
    ensures
        r@ == dotted(stem@, ext@),
{
    let mut s = String::new();
    push_str(&mut s, stem);
    push_char(&mut s, '.');
    push_str(&mut s, ext);
    assert(s@ =~= dotted(stem@, ext@));
    s
}

fn push_both_cases(out: &mut Vec<String>, stem: &str, exts: &Vec<&'static str>)
    ensures
        strings_view(final(out)@) == strings_view(old(out)@) + both_cases(stem@, strs_view(exts@)),
{
    let ghost o0 = strings_view(out@);
    let ghost ev = strs_view(exts@);
    let mut i: usize = 0;
    assert(ev.take(0) =~= Seq::<Seq<char>>::empty());
    assert(o0 + both_cases(stem@, ev.take(0)) =~= o0);
    while i < exts.len()
        invariant
            i <= exts.len(),
            ev == strs_view(exts@),
            strings_view(out@) == o0 + both_cases(stem@, ev.take(i as int)),
        decreases exts.len() - i,
    {
        assert(ev.take(i + 1).drop_last() =~= ev.take(i as int));
        assert(ev.take(i + 1).last() == exts@[i as int]@);
        let a = dotted_exec(stem, exts[i]);
        let up = to_uppercase(exts[i]);
        let b = dotted_exec(stem, up.as_str());
        let ghost prev = out@;
        let ghost av = a@;
        let ghost bv = b@;
        out.push(a);
        out.push(b);
        assert(strings_view(out@) =~= strings_view(prev).push(av).push(bv));
        i += 1;
    }
    assert(ev.take(exts.len() as int) =~= ev);
}

fn capitalized_exec(name: &str) -> (r: String)
    ensures
        r@ == capitalized(name@),
{
    let v = chars_of(name);
    if v.len() == 0 {
        return String::new();
    }
    let first = subvec(&v, 0, 1);
    let rest = subvec(&v, 1, v.len());
    assert(first@ =~= name@.take(1));
    assert(rest@ =~= name@.skip(1));
    let f = string_of(&first);
    let mut s = to_uppercase(f.as_str());
    let r = string_of(&rest);
    push_str(&mut s, r.as_str());
    s
}

fn push_common_covers(out: &mut Vec<String>)
    ensures
        strings_view(final(out)@) == strings_view(old(out)@) + common_covers(cover_names()),
{
    let names = cover_filenames();
    let exts = image_extensions();
    let ghost o0 = strings_view(out@);
    let ghost nv = strs_view(names@);
    let ghost ev = strs_view(exts@);
    let mut i: usize = 0;
    assert(nv.take(0) =~= Seq::<Seq<char>>::empty());
    assert(o0 + common_covers(nv.take(0)) =~= o0);
    while i < names.len()
        invariant
            i <= names.len(),
            nv == strs_view(names@),
            nv == cover_names(),
            ev == strs_view(exts@),
            ev == image_exts(),
            strings_view(out@) == o0 + common_covers(nv.take(i as int)),
        decreases names.len() - i,
    {
        assert(nv.take(i + 1).drop_last() =~= nv.take(i as int));
        assert(nv.take(i + 1).last() == names@[i as int]@);
        let name = names[i];
        let cap = capitalized_exec(name);
        let upper = to_uppercase(name);
        let ghost base = strings_view(out@);
        let mut j: usize = 0;
        assert(ev.take(0) =~= Seq::<Seq<char>>::empty());
        assert(base + three_cases(name@, ev.take(0)) =~= base);
        while j < exts.len()
            invariant
                j <= exts.len(),
                ev == strs_view(exts@),
                cap@ == capitalized(name@),
                upper@ == uppercase(name@),
                strings_view(out@) == base + three_cases(name@, ev.take(j as int)),
            decreases exts.len() - j,
        {
            assert(ev.take(j + 1).drop_last() =~= ev.take(j as int));
            assert(ev.take(j + 1).last() == exts@[j as int]@);
            let a = dotted_exec(name, exts[j]);
            let b = dotted_exec(cap.as_str(), exts[j]);
            let up_ext = to_uppercase(exts[j]);
            let c = dotted_exec(upper.as_str(), up_ext.as_str());
            let ghost prev = out@;
            let ghost (av, bv, cv) = (a@, b@, c@);
            out.push(a);
            out.push(b);
            out.push(c);
            assert(strings_view(out@) =~= strings_view(prev).push(av).push(bv).push(cv));
            j += 1;
        }
        assert(ev.take(exts.len() as int) =~= ev);
        assert(o0 + common_covers(nv.take(i + 1)) =~= o0 + common_covers(nv.take(i as int)) + three_cases(name@, ev));
        i += 1;
    }
    assert(nv.take(names.len() as int) =~= nv);
}

/// The file names (in the audio file's directory) tried for its cover art,
/// in priority order; `stem` is the audio file's stem.
pub fn cover_candidates(stem: Option<&str>) -> (r: Vec<String>)
    ensures
        strings_view(r@) == cover_candidate_names(
            match stem {
                Some(s) => Some(s@),
                None => None,
            },
        ),
{
    let mut out: Vec<String> = Vec::new();
    assert(strings_view(out@) =~= Seq::<Seq<char>>::empty());
    match stem {
        Some(s) => {
            let exts = image_extensions();
            push_both_cases(&mut out, s, &exts);
        },
        None => {},
    }
    let ghost first = strings_view(out@);
    push_common_covers(&mut out);
    assert(strings_view(out@) =~= cover_candidate_names(
        match stem {
            Some(s) => Some(s@),
            None => None,
        },
    ));
    out
}

/// The file names (in the audio file's directory) tried for its lyrics, in
/// priority order: for each lyrics extension, lowercase then uppercase.
pub fn lyrics_candidates(stem: &str) -> (r: Vec<String>)
    ensures
        strings_view(r@) == both_cases(stem@, lyrics_exts()),
{
    let mut out: Vec<String> = Vec::new();
    let exts = lyrics_extensions();
    push_both_cases(&mut out, stem, &exts);
    assert(strings_view(out@) =~= both_cases(stem@, lyrics_exts()));
    out
}

/// The file names tried for a sidecar file with the given extension: `stem.ext`, `stem.EXT`.
pub fn sidecar_candidates(stem: &str, extension: &str) -> (r: Vec<String>)
    ensures
        strings_view(r@) == seq![dotted(stem@, extension@), dotted(stem@, uppercase(extension@))],
{
    let a = dotted_exec(stem, extension);
    let up = to_uppercase(extension);
    let b = dotted_exec(stem, up.as_str());
    let r = vec![a, b];
    assert(strings_view(r@) =~= seq![dotted(stem@, extension@), dotted(stem@, uppercase(extension@))]);
    r
}

/// The candidate to use: the first, in priority order, that is present
/// (`present[i]` tells whether the `i`-th candidate exists); candidates past
/// the end of `present` count as absent.
pub fn first_existing(candidates: &Vec<String>, present: &Vec<bool>) -> (r: Option<String>)
    ensures
        match r {
            Some(c) => exists|i: int|
                0 <= i < candidates@.len() && i < present@.len() && present@[i] && c@ == candidates@[i]@
                    && forall|j: int| 0 <= j < i ==> !(#[trigger] present@[j]),
            None => forall|j: int| 0 <= j < candidates@.len() && j < present@.len() ==> !(#[trigger] present@[j]),
        },
{
    let mut i: usize = 0;
    while i < candidates.len() && i < present.len()
        invariant
            i <= candidates.len(),
            forall|j: int| 0 <= j < i && j < present@.len() ==> !(#[trigger] present@[j]),
        decreases candidates.len() - i,
    {
        if present[i] {
            return Some(copy_string(&candidates[i]));
        }
        i += 1;
    }
    None
}

// ----------------------------------------------------------------------------
// Choosing lyrics
// ----------------------------------------------------------------------------

/// The lines with a translation sidecar merged in, when there are lines and
/// the sidecar has any.
pub open spec fn with_sidecar(lines: Seq<SpecLine>, tlrc: Option<Seq<char>>) -> Seq<SpecLine> {
    if lines.len() == 0 {
        lines
    } else {
        match tlrc {
            Some(t) => if spec_parse_lrc(t).len() > 0 {
                merge_walk(lines, spec_parse_lrc(t), 0, 0, true)
            } else {
                lines
            },
            None => lines,
        }
    }
}

/// Lyrics from a lyrics file: its parsed lines with the translation sidecar
/// (`.tlrc`) merged in, if any; none when the file gives no line.
pub fn lyrics_from_file(content: &str, tlrc: Option<String>) -> (r: Option<Vec<LyricLineOwned>>)
    requires
        parsable(content@),
    ensures
        match r {
            Some(v) => lines_view(v@) == with_sidecar(parsed_lyrics(content@), opt_view(tlrc)) && v.len() > 0,
            None => with_sidecar(parsed_lyrics(content@), opt_view(tlrc)).len() == 0,
        },
{
    let mut lines = parse_lyrics(content);
    let ghost parsed = lines_view(lines@);
    if lines.len() > 0 {
        if let Some(t) = &tlrc {
            let trans = parse_lrc_sidecar(t.as_str());
            if trans.len() > 0 {
                merge_translation(&mut lines, &trans);
            }
        }
    }
    assert(lines_view(lines@) == with_sidecar(parsed, opt_view(tlrc)));
    if lines.len() > 0 {
        Some(lines)
    } else {
        None
    }
}

pub open spec fn opt_view(o: Option<String>) -> Option<Seq<char>> {
    match o {
        Some(s) => Some(s@),
        None => None,
    }
}

/// The single line shown for untimed lyrics: one word with the whole text,
/// from 0 to the end of time.
pub open spec fn untimed_line(text: Seq<char>) -> SpecLine {
    SpecLine {
        words: seq![SpecWord { start_time: 0, end_time: u64::MAX, word: text, roman_word: Seq::empty() }],
        start_time: 0,
        end_time: u64::MAX,
        ..empty_line()
    }
}

/// Lyrics from the tag's embedded text: its parsed lines; else, for text
/// without timestamps, one untimed line; none for blank text.
pub fn lyrics_from_embedded(text: String) -> (r: Option<Vec<LyricLineOwned>>)
    requires
        parsable(text@),
    ensures
        match r {
            Some(v) => v.len() > 0 && lines_view(v@) == (if parsed_lyrics(text@).len() > 0 {
                parsed_lyrics(text@)
            } else {
                seq![untimed_line(text@)]
            }),
            None => parsed_lyrics(text@).len() == 0 && trim(text@).len() == 0,
        },
{
    let lines = parse_lyrics(text.as_str());
    let ghost parsed = lines_view(lines@);
    if lines.len() > 0 {
        return Some(lines);
    }
    let v = chars_of(text.as_str());
    let t = trim_chars(&v);
    if t.len() > 0 {
        let ghost tv = text@;
        let word = LyricWordOwned { start_time: 0, end_time: u64::MAX, word: text, roman_word: String::new() };
        let ghost wv = word@;
        let mut line = LyricLineOwned::default();
        line.words.push(word);
        line.start_time = 0;
        line.end_time = u64::MAX;
        assert(line@.words =~= seq![wv]);
        assert(line@ == untimed_line(tv));
        let mut r: Vec<LyricLineOwned> = Vec::new();
        r.push(line);
        assert(lines_view(r@) =~= seq![untimed_line(tv)]);
        Some(r)
    } else {
        None
    }
}

/// Converts lyrics to the display form (see `to_ui_lyrics`).
pub fn to_ui_lyric_lines(lines: Vec<LyricLineOwned>) -> (r: Vec<LyricLine>)
    ensures
        ui_lines_view(r@) == ui_lyrics(lines_view(lines@)),
{
    to_ui_lyrics(lines)
}

} // verus!
