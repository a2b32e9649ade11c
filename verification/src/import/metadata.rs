//! Track metadata: what is read from tags (with encoding fallback), what a
//! file name tells of artist and title, and the edits written back.

use vstd::prelude::*;
use vstd::utf8::encode_utf8;

use crate::import::encoding::{decode_string, decoded_text, normalize_string, normalized_ws};
use crate::paths::opt_chars;
use crate::text::{
    all_digits, find_sub, find_sub_exec, is_digit, lowercase, parse_u64, parse_u64_chars, push_str, rfind,
    rfind_char, seq_contains, string_chars, string_eq_str, string_of, subvec, to_lowercase, trim, trim_chars,
    utf8_len, utf8_prefix_len, sat_usize, contains_seq, chars_of, occurs_at, lemma_find_sub_from_first,
    lemma_find_sub_from_none, lemma_rfind_before_tail,
};

verus! {

/// Metadata of an audio file.
#[derive(Debug, Clone)]
pub struct AudioMetadata {
    pub title: String,
    pub artist: String,
    pub album: String,
    pub duration_secs: i64,
    pub track_number: Option<i64>,
    pub year: Option<i64>,
    pub genre: Option<String>,
    /// Lowercase file extension, or `unknown`.
    pub format: String,
    /// Raw cover art data.
    pub cover_data: Option<Vec<u8>>,
    pub cover_mime: Option<String>,
}

impl Default for AudioMetadata {
    fn default() -> (r: Self)
        ensures
            r.title@ == "Unknown Title"@,
            r.artist@ == "Unknown Artist"@,
            r.album@ == "Unknown Album"@,
            r.duration_secs == 0,
            r.track_number is None,
            r.year is None,
            r.genre is None,
            r.format@ == "unknown"@,
            r.cover_data is None,
            r.cover_mime is None,
    {
        let mut title = String::new();
        push_str(&mut title, "Unknown Title");
        let mut artist = String::new();
        push_str(&mut artist, "Unknown Artist");
        let mut album = String::new();
        push_str(&mut album, "Unknown Album");
        let mut format = String::new();
        push_str(&mut format, "unknown");
        AudioMetadata {
            title,
            artist,
            album,
            duration_secs: 0,
            track_number: None,
            year: None,
            genre: None,
            format,
            cover_data: None,
            cover_mime: None,
        }
    }
}

// ----------------------------------------------------------------------------
// File names
// ----------------------------------------------------------------------------

/// The file name without its last extension.
pub open spec fn strip_extension(f: Seq<char>) -> Seq<char> {
    match rfind(f, '.') {
        Some(i) => f.take(i),
        None => f,
    }
}

/// What `str::parse::<u32>` accepts.
pub open spec fn parses_u32(s: Seq<char>) -> bool {
    parse_u64(s) is Some && parse_u64(s)->0 <= u32::MAX
}

/// A part before ` - ` that is a track number: a `u32`, or only digits and dots.
pub open spec fn track_number_like(a: Seq<char>) -> bool {
    parses_u32(a) || forall|k: int| 0 <= k < a.len() ==> is_digit(#[trigger] a[k]) || a[k] == '.'
}

/// `s` without its leading `.`, ` ` and `_` characters.
pub open spec fn trim_separators(s: Seq<char>) -> Seq<char>
    decreases s.len(),
{
    if s.len() > 0 && (s[0] == '.' || s[0] == ' ' || s[0] == '_') {
        trim_separators(s.drop_first())
    } else {
        s
    }
}

/// Whether a trimmed name starts with a two-digit number followed by more
/// (its UTF-8 length is over three bytes).
pub open spec fn numbered(nt: Seq<char>) -> bool {
    utf8_len(nt) > 3 && forall|k: int| 0 <= k < 2 && k < nt.len() ==> is_digit(#[trigger] nt[k])
}

/// Artist and title read from a file name: `Artist - Title`, `NN - Title`,
/// `Artist_-_Title`, `NN. Title` or `NN Title`, or the whole name as title.
pub open spec fn filename_parts(filename: Seq<char>) -> (Option<Seq<char>>, Option<Seq<char>>) {
    let name = strip_extension(filename);
    match find_sub(name, " - "@) {
        Some(i) => {
            let artist = trim(name.take(i));
            let title = normalized_ws(name.skip(i + 3));
            if track_number_like(artist) {
                (None, Some(title))
            } else {
                (Some(normalized_ws(artist)), Some(title))
            }
        },
        None => match find_sub(name, "_-_"@) {
            Some(i) => (Some(normalized_ws(name.take(i))), Some(normalized_ws(name.skip(i + 3)))),
            None => {
                let nt = trim(name);
                if numbered(nt) && trim_separators(nt.skip(2)).len() > 0 {
                    (None, Some(normalized_ws(trim_separators(nt.skip(2)))))
                } else {
                    (None, Some(normalized_ws(name)))
                }
            },
        },
    }
}

/// A name written `A_-_T.ext` (with no ` - ` in it and no `_-_` before the
/// separator) has `A` as its artist and `T` as its title, each with its
/// whitespace normalized: the part before the separator is the artist.
pub proof fn lemma_underscore_name_is_artist_then_title(a: Seq<char>, t: Seq<char>, ext: Seq<char>)
    requires
        !ext.contains('.'),
        !contains_seq(a + "_-_"@ + t, " - "@),
        !contains_seq(a + "_-"@, "_-_"@),
    ensures
        filename_parts(a + "_-_"@ + t + seq!['.'] + ext) == (Some(normalized_ws(a)), Some(normalized_ws(t))),
{
    reveal_strlit("_-_");
    reveal_strlit("_-");
    reveal_strlit(" - ");
    let name = a + "_-_"@ + t;
    let f = name + seq!['.'] + ext;
    lemma_rfind_before_tail(name, '.', ext);
    assert(f.take(name.len() as int) =~= name);
    assert(strip_extension(f) == name);
    assert forall|j: int| 0 <= j implies !occurs_at(name, " - "@, j) by {
        if occurs_at(name, " - "@, j) {
            assert(contains_seq(name, " - "@));
        }
    }
    lemma_find_sub_from_none(name, " - "@, 0);
    let k = a.len() as int;
    assert(occurs_at(name, "_-_"@, k)) by {
        assert(name.subrange(k, k + 3) =~= "_-_"@);
    }
    assert forall|j: int| 0 <= j < k implies !occurs_at(name, "_-_"@, j) by {
        if occurs_at(name, "_-_"@, j) {
            assert(name.subrange(j, j + 3) =~= (a + "_-"@).subrange(j, j + 3));
            assert(occurs_at(a + "_-"@, "_-_"@, j));
        }
    }
    lemma_find_sub_from_first(name, "_-_"@, 0, k);
    assert(name.take(k) =~= a);
    assert(name.skip(k + 3) =~= t);
}

/// A name written `A - T.ext` (no ` - ` before the separator) has `T` as its
/// title and `A` (trimmed) as its artist, each with its whitespace
/// normalized, unless `A` is a track number, which gives no artist.
pub proof fn lemma_dash_name_is_artist_then_title(a: Seq<char>, t: Seq<char>, ext: Seq<char>)
    requires
        !ext.contains('.'),
        !contains_seq(a + " -"@, " - "@),
    ensures
        filename_parts(a + " - "@ + t + seq!['.'] + ext) == (if track_number_like(trim(a)) {
            None
        } else {
            Some(normalized_ws(trim(a)))
        }, Some(normalized_ws(t))),
{
    reveal_strlit(" - ");
    reveal_strlit(" -");
    let name = a + " - "@ + t;
    let f = name + seq!['.'] + ext;
    lemma_rfind_before_tail(name, '.', ext);
    assert(f.take(name.len() as int) =~= name);
    assert(strip_extension(f) == name);
    let k = a.len() as int;
    assert(occurs_at(name, " - "@, k)) by {
        assert(name.subrange(k, k + 3) =~= " - "@);
    }
    assert forall|j: int| 0 <= j < k implies !occurs_at(name, " - "@, j) by {
        if occurs_at(name, " - "@, j) {
            assert(name.subrange(j, j + 3) =~= (a + " -"@).subrange(j, j + 3));
            assert(occurs_at(a + " -"@, " - "@, j));
        }
    }
    lemma_find_sub_from_first(name, " - "@, 0, k);
    assert(name.take(k) =~= a);
    assert(name.skip(k + 3) =~= t);
}

fn normalize_chars(v: &Vec<char>) -> (r: String)
    ensures
        r@ == normalized_ws(v@),
{
    let s = string_of(v);
    normalize_string(s.as_str())
}

fn track_number_like_exec(a: &Vec<char>) -> (r: bool)
    ensures
        r == track_number_like(a@),
{
    match parse_u64_chars(a) {
        Some(v) => {
            if v <= 4294967295u64 {
                return true;
            }
        },
        None => {},
    }
    let mut k: usize = 0;
    while k < a.len()
        invariant
            k <= a.len(),
            !parses_u32(a@),
            forall|j: int| 0 <= j < k ==> is_digit(#[trigger] a@[j]) || a@[j] == '.',
        decreases a.len() - k,
    {
        if !(('0' <= a[k] && a[k] <= '9') || a[k] == '.') {
            assert(!(is_digit(a@[k as int]) || a@[k as int] == '.'));
            return false;
        }
        k += 1;
    }
    true
}

fn trim_separators_exec(s: &Vec<char>, from: usize) -> (r: Vec<char>)
    requires
        from <= s.len(),
    ensures
        r@ == trim_separators(s@.skip(from as int)),
{
    let mut i: usize = from;
    while i < s.len() && (s[i] == '.' || s[i] == ' ' || s[i] == '_')
        invariant
            from <= i <= s.len(),
            trim_separators(s@.skip(from as int)) == trim_separators(s@.skip(i as int)),
        decreases s.len() - i,
    {
        assert(s@.skip(i as int).drop_first() =~= s@.skip(i + 1));
        i += 1;
    }
    let r = subvec(s, i, s.len());
    assert(r@ =~= s@.skip(i as int));
    r
}

/// Artist and title read from a file name (see [`filename_parts`]).
pub fn parse_filename(filename: &str) -> (r: (Option<String>, Option<String>))
    ensures
        (opt_chars(r.0), opt_chars(r.1)) == filename_parts(filename@),
{
    let f = chars_of(filename);
    let name = match rfind_char(&f, '.') {
        Some(i) => subvec(&f, 0, i),
        None => f,
    };
    assert(name@ =~= strip_extension(filename@));
    let dash = chars_of(" - ");
    match find_sub_exec(&name, &dash) {
        Some(i) => {
            proof {
                reveal_strlit(" - ");
            }
            let head = subvec(&name, 0, i);
            let artist = trim_chars(&head);
            let tail = subvec(&name, i + 3, name.len());
            assert(head@ =~= name@.take(i as int));
            assert(tail@ =~= name@.skip(i + 3));
            let title = normalize_chars(&tail);
            if track_number_like_exec(&artist) {
                return (None, Some(title));
            }
            return (Some(normalize_chars(&artist)), Some(title));
        },
        None => {},
    }
    let sep = chars_of("_-_");
    match find_sub_exec(&name, &sep) {
        Some(i) => {
            proof {
                reveal_strlit("_-_");
            }
            let head = subvec(&name, 0, i);
            let tail = subvec(&name, i + 3, name.len());
            assert(head@ =~= name@.take(i as int));
            assert(tail@ =~= name@.skip(i + 3));
            return (Some(normalize_chars(&head)), Some(normalize_chars(&tail)));
        },
        None => {},
    }
    let nt = trim_chars(&name);
    let bytes = utf8_prefix_len(&nt, nt.len());
    assert(nt@.take(nt.len() as int) =~= nt@);
    if bytes > 3 {
        let two_digits = if nt.len() >= 2 {
            ('0' <= nt[0] && nt[0] <= '9') && ('0' <= nt[1] && nt[1] <= '9')
        } else if nt.len() == 1 {
            '0' <= nt[0] && nt[0] <= '9'
        } else {
            true
        };
        assert(two_digits == (forall|k: int| 0 <= k < 2 && k < nt@.len() ==> is_digit(#[trigger] nt@[k])));
        if two_digits && nt.len() >= 2 {
            let rest = trim_separators_exec(&nt, 2);
            if rest.len() > 0 {
                return (None, Some(normalize_chars(&rest)));
            }
        }
        proof {
            if two_digits && nt.len() < 2 {
                if nt.len() == 1 {
                    assert(utf8_len(nt@) == utf8_len(nt@.drop_last()) + 1);
                    assert(nt@.drop_last().len() == 0);
                }
                assert(utf8_len(nt@) <= 3);
            }
        }
    }
    proof {
        if bytes <= 3 {
            assert(sat_usize(utf8_len(nt@)) <= 3);
            assert(!numbered(nt@));
        }
    }
    (None, Some(normalize_chars(&name)))
}

pub open spec fn unknown_artist() -> Seq<char> {
    "Unknown Artist"@
}

pub open spec fn unknown_title() -> Seq<char> {
    "Unknown Title"@
}

/// Fills artist and title from the file name where they are still unknown.
pub fn apply_smart_parsing(metadata: &mut AudioMetadata, filename: &str)
    ensures
        final(metadata).artist@ == (if old(metadata).artist@ == unknown_artist() && filename_parts(filename@).0 is Some {
            filename_parts(filename@).0->0
        } else {
            old(metadata).artist@
        }),
        final(metadata).title@ == (if old(metadata).title@ == unknown_title() && filename_parts(filename@).1 is Some {
            filename_parts(filename@).1->0
        } else {
            old(metadata).title@
        }),
        final(metadata).album == old(metadata).album,
        final(metadata).duration_secs == old(metadata).duration_secs,
        final(metadata).track_number == old(metadata).track_number,
        final(metadata).year == old(metadata).year,
        final(metadata).genre == old(metadata).genre,
        final(metadata).format == old(metadata).format,
        final(metadata).cover_data == old(metadata).cover_data,
        final(metadata).cover_mime == old(metadata).cover_mime,
{
    let (parsed_artist, parsed_title) = parse_filename(filename);
    if string_eq_str(&metadata.artist, "Unknown Artist") {
        if let Some(artist) = parsed_artist {
            metadata.artist = artist;
        }
    }
    if string_eq_str(&metadata.title, "Unknown Title") {
        if let Some(title) = parsed_title {
            metadata.title = title;
        }
    }
}

// ----------------------------------------------------------------------------
// Tags
// ----------------------------------------------------------------------------

/// The text fields and pictures that a file's tag holds, as the tag reader gives them.
#[derive(Debug, Clone)]
pub struct TagFields {
    pub title: Option<String>,
    pub artist: Option<String>,
    pub album: Option<String>,
    pub track: Option<u32>,
    pub year: Option<u16>,
    pub genre: Option<String>,
    /// The first picture: its data and MIME type.
    pub picture: Option<(Vec<u8>, Option<String>)>,
}

/// A tag text as stored: decoded from its UTF-8 bytes (with the legacy
/// fallback) and whitespace-normalized.
pub open spec fn tag_text(s: Seq<char>) -> Seq<char> {
    normalized_ws(decoded_text(encode_utf8(s)))
}

fn tag_text_exec(s: &String) -> (r: String)
    ensures
        r@ == tag_text(s@),
{
    let d = decode_string(s.as_str().as_bytes());
    normalize_string(d.as_str())
}

/// The title when nothing else names it: the file stem, or `Unknown Title`.
pub open spec fn fallback_title(title: Seq<char>, file_stem: Option<Seq<char>>) -> Seq<char> {
    if title == unknown_title() {
        match file_stem {
            Some(s) => s,
            None => unknown_title(),
        }
    } else {
        title
    }
}

/// Metadata built from what the tag reader found: the duration, the file's
/// extension, the tag (if any) and the file stem.
pub fn metadata_from_tags(duration_secs: i64, extension: Option<String>, tag: Option<TagFields>, file_stem: Option<String>) -> (r: AudioMetadata)
    ensures
        r.duration_secs == duration_secs,
        r.format@ == (match extension {
            Some(e) => lowercase(e@),
            None => "unknown"@,
        }),
        r.title@ == fallback_title(
            match tag {
                Some(t) => match t.title {
                    Some(x) => tag_text(x@),
                    None => unknown_title(),
                },
                None => unknown_title(),
            },
            opt_chars(file_stem),
        ),
        r.artist@ == (match tag {
            Some(t) => match t.artist {
                Some(x) => tag_text(x@),
                None => unknown_artist(),
            },
            None => unknown_artist(),
        }),
        r.album@ == (match tag {
            Some(t) => match t.album {
                Some(x) => tag_text(x@),
                None => "Unknown Album"@,
            },
            None => "Unknown Album"@,
        }),
        r.track_number == (match tag {
            Some(t) => match t.track {
                Some(n) => Some(n as i64),
                None => None,
            },
            None => None,
        }),
        r.year == (match tag {
            Some(t) => match t.year {
                Some(y) => Some(y as i64),
                None => None,
            },
            None => None,
        }),
        opt_chars(r.genre) == (match tag {
            Some(t) => match t.genre {
                Some(x) => Some(tag_text(x@)),
                None => None,
            },
            None => None,
        }),
        r.cover_data == (match tag {
            Some(t) => match t.picture {
                Some(p) => Some(p.0),
                None => None,
            },
            None => None,
        }),
        opt_chars(r.cover_mime) == (match tag {
            Some(t) => match t.picture {
                Some(p) => Some(
                    match p.1 {
                        Some(m) => m@,
                        None => "image/jpeg"@,
                    },
                ),
                None => None,
            },
            None => None,
        }),
{
    let mut m = AudioMetadata::default();
    m.duration_secs = duration_secs;
    match extension {
        Some(e) => m.format = to_lowercase(e.as_str()),
        None => {},
    }
    match tag {
        Some(t) => {
            if let Some(title) = &t.title {
                m.title = tag_text_exec(title);
            }
            if let Some(artist) = &t.artist {
                m.artist = tag_text_exec(artist);
            }
            if let Some(album) = &t.album {
                m.album = tag_text_exec(album);
            }
            m.track_number = match t.track {
                Some(n) => Some(n as i64),
                None => None,
            };
            m.year = match t.year {
                Some(y) => Some(y as i64),
                None => None,
            };
            if let Some(genre) = &t.genre {
                m.genre = Some(tag_text_exec(genre));
            }
            match t.picture {
                Some((data, mime)) => {
                    m.cover_data = Some(data);
                    m.cover_mime = Some(
                        match mime {
                            Some(x) => x,
                            None => {
                                let mut s = String::new();
                                push_str(&mut s, "image/jpeg");
                                s
                            },
                        },
                    );
                },
                None => {},
            }
        },
        None => {},
    }
    if string_eq_str(&m.title, "Unknown Title") {
        match file_stem {
            Some(stem) => m.title = stem,
            None => {},
        }
    }
    m
}

/// Metadata edits to write back to a file.
#[derive(Debug, Clone)]
pub struct MetadataEdits {
    pub title: Option<String>,
    pub artist: Option<String>,
    pub album: Option<String>,
    pub track_number: Option<u32>,
    pub year: Option<u32>,
    pub genre: Option<String>,
    pub cover_data: Option<Vec<u8>>,
    pub cover_mime: Option<String>,
}

impl Default for MetadataEdits {
    fn default() -> (r: Self)
        ensures
            r.title is None,
            r.artist is None,
            r.album is None,
            r.track_number is None,
            r.year is None,
            r.genre is None,
            r.cover_data is None,
            r.cover_mime is None,
    {
        MetadataEdits {
            title: None,
            artist: None,
            album: None,
            track_number: None,
            year: None,
            genre: None,
            cover_data: None,
            cover_mime: None,
        }
    }
}

/// The year as a tag stores it: only years up to 9999 can be written.
pub fn tag_year(y: u32) -> (r: Option<u16>)
    ensures
        r == (if y <= 9999 { Some(y as u16) } else { None::<u16> }),
{
    if y <= 9999 {
        Some(y as u16)
    } else {
        None
    }
}

/// Whether a cover's MIME type names PNG (else it is written as JPEG).
pub fn cover_is_png(mime: &str) -> (r: bool)
    ensures
        r == contains_seq(mime@, "png"@),
{
    let m = chars_of(mime);
    let p = chars_of("png");
    seq_contains(&m, &p)
}

} // verus!
