//! Decoding of tag text: UTF-8 first, then the legacy encodings that old
//! music files use (GBK, Big5, Shift-JIS, EUC-JP, EUC-KR, Windows-1252),
//! then lossy UTF-8. Also whitespace normalization and CJK detection.

use vstd::prelude::*;
use vstd::utf8::{decode_utf8, valid_utf8};

use crate::paths::opt_chars;
use crate::text::{chars_of, is_whitespace, is_ws, push_char, push_chars, sat_usize, string_chars, utf8_len, utf8_prefix_len};

verus! {

// ----------------------------------------------------------------------------
// CJK detection and whitespace
// ----------------------------------------------------------------------------

/// CJK Unified Ideographs, Extension A, Hiragana, Katakana and Hangul syllables.
pub open spec fn cjk_char(c: char) -> bool {
    ('\u{4E00}' <= c && c <= '\u{9FFF}') || ('\u{3400}' <= c && c <= '\u{4DBF}') || ('\u{3040}' <= c && c
        <= '\u{309F}') || ('\u{30A0}' <= c && c <= '\u{30FF}') || ('\u{AC00}' <= c && c <= '\u{D7AF}')
}

/// Whether the text holds a CJK character.
pub fn contains_cjk(s: &str) -> (r: bool)
    ensures
        r == exists|i: int| 0 <= i < s@.len() && cjk_char(#[trigger] s@[i]),
{
    let v = chars_of(s);
    let mut i: usize = 0;
    while i < v.len()
        invariant
            i <= v.len(),
            v@ == s@,
            forall|j: int| 0 <= j < i ==> !cjk_char(#[trigger] v@[j]),
        decreases v.len() - i,
    {
        let c = v[i];
        if ('\u{4E00}' <= c && c <= '\u{9FFF}') || ('\u{3400}' <= c && c <= '\u{4DBF}') || ('\u{3040}' <= c
            && c <= '\u{309F}') || ('\u{30A0}' <= c && c <= '\u{30FF}') || ('\u{AC00}' <= c && c <= '\u{D7AF}') {
            assert(cjk_char(s@[i as int]));
            return true;
        }
        i += 1;
    }
    false
}

/// The maximal runs of non-whitespace characters of `s`, in order
/// (`str::split_whitespace`).
pub open spec fn ws_words(s: Seq<char>) -> Seq<Seq<char>>
    decreases s.len(),
{
    if s.len() == 0 {
        Seq::empty()
    } else {
        let w = ws_words(s.drop_last());
        let c = s.last();
        if is_ws(c) {
            w
        } else if s.len() >= 2 && !is_ws(s[s.len() - 2]) {
            w.update(w.len() - 1, w.last().push(c))
        } else {
            w.push(seq![c])
        }
    }
}

/// The pieces joined with `sep` between them.
pub open spec fn join_with(ws: Seq<Seq<char>>, sep: char) -> Seq<char>
    decreases ws.len(),
{
    if ws.len() == 0 {
        Seq::empty()
    } else if ws.len() == 1 {
        ws[0]
    } else {
        join_with(ws.drop_last(), sep) + seq![sep] + ws.last()
    }
}

/// The words of `s` separated by single spaces.
pub open spec fn normalized_ws(s: Seq<char>) -> Seq<char> {
    join_with(ws_words(s), ' ')
}

/// A word of the normalizer's output: non-empty, without whitespace.
pub open spec fn clean_word(t: Seq<char>) -> bool {
    t.len() > 0 && forall|j: int| 0 <= j < t.len() ==> !is_ws(#[trigger] t[j])
}

proof fn lemma_ws_words_clean(s: Seq<char>)
    ensures
        forall|i: int| 0 <= i < ws_words(s).len() ==> clean_word(#[trigger] ws_words(s)[i]),
        s.len() > 0 && !is_ws(s.last()) ==> ws_words(s).len() > 0,
    decreases s.len(),
{
    if s.len() > 0 {
        lemma_ws_words_clean(s.drop_last());
        let w = ws_words(s.drop_last());
        let c = s.last();
        if !is_ws(c) && s.len() >= 2 && !is_ws(s[s.len() - 2]) {
            assert(s.drop_last().last() == s[s.len() - 2]);
            assert forall|i: int| 0 <= i < ws_words(s).len() implies clean_word(#[trigger] ws_words(s)[i]) by {
                if i == w.len() - 1 {
                    let t = w.last().push(c);
                    assert(clean_word(w[i]));
                    assert forall|j: int| 0 <= j < t.len() implies !is_ws(#[trigger] t[j]) by {
                        if j < t.len() - 1 {
                            assert(t[j] == w[i][j]);
                        }
                    }
                }
            }
        } else if !is_ws(c) {
            assert forall|i: int| 0 <= i < ws_words(s).len() implies clean_word(#[trigger] ws_words(s)[i]) by {
                if i == w.len() {
                    assert(ws_words(s)[i] == seq![c]);
                }
            }
        }
    }
}

proof fn lemma_ws_words_append_word(p: Seq<char>, t: Seq<char>)
    requires
        clean_word(t),
        p.len() == 0 || is_ws(p.last()),
    ensures
        ws_words(p + t) == ws_words(p).push(t),
    decreases t.len(),
{
    let s = p + t;
    assert(s.last() == t.last());
    assert(!is_ws(t[t.len() - 1]));
    if t.len() == 1 {
        assert(s.drop_last() =~= p);
        assert(t =~= seq![t[0]]);
        if s.len() >= 2 {
            assert(s[s.len() - 2] == p.last());
        }
    } else {
        let u = t.drop_last();
        assert forall|j: int| 0 <= j < u.len() implies !is_ws(#[trigger] u[j]) by {
            assert(u[j] == t[j]);
        }
        lemma_ws_words_append_word(p, u);
        assert(s.drop_last() =~= p + u);
        assert(s[s.len() - 2] == t[t.len() - 2]);
        assert(!is_ws(t[t.len() - 2]));
        assert(u.push(t.last()) =~= t);
        assert(ws_words(p).push(u).update(ws_words(p).len() as int, u.push(t.last())) =~= ws_words(p).push(t));
    }
}

proof fn lemma_ws_words_of_join(ws: Seq<Seq<char>>)
    requires
        forall|i: int| 0 <= i < ws.len() ==> clean_word(#[trigger] ws[i]),
    ensures
        ws_words(join_with(ws, ' ')) == ws,
    decreases ws.len(),
{
    if ws.len() == 0 {
        assert(ws =~= Seq::<Seq<char>>::empty());
    } else if ws.len() == 1 {
        assert(clean_word(ws[0]));
        lemma_ws_words_append_word(Seq::empty(), ws[0]);
        assert(Seq::<char>::empty() + ws[0] =~= ws[0]);
        assert(Seq::<Seq<char>>::empty().push(ws[0]) =~= ws);
    } else {
        let init = ws.drop_last();
        assert forall|i: int| 0 <= i < init.len() implies clean_word(#[trigger] init[i]) by {
            assert(init[i] == ws[i]);
        }
        lemma_ws_words_of_join(init);
        let p = join_with(init, ' ') + seq![' '];
        assert(p.drop_last() =~= join_with(init, ' '));
        assert(is_ws(p.last()));
        assert(clean_word(ws[ws.len() - 1]));
        lemma_ws_words_append_word(p, ws.last());
        assert(init.push(ws.last()) =~= ws);
    }
}

/// Normalizing keeps the words: the output's whitespace-separated words are
/// those of the input, each non-empty and free of whitespace, in the same
/// order (so the output has no whitespace at either end and single spaces
/// between words).
pub proof fn lemma_normalized_keeps_words(s: Seq<char>)
    ensures
        ws_words(normalized_ws(s)) == ws_words(s),
        forall|i: int| 0 <= i < ws_words(s).len() ==> clean_word(#[trigger] ws_words(s)[i]),
{
    lemma_ws_words_clean(s);
    lemma_ws_words_of_join(ws_words(s));
}

/// Normalizing twice is normalizing once.
pub proof fn lemma_normalize_idempotent(s: Seq<char>)
    ensures
        normalized_ws(normalized_ws(s)) == normalized_ws(s),
{
    lemma_normalized_keeps_words(s);
}

pub open spec fn chars_views(v: Seq<Vec<char>>) -> Seq<Seq<char>> {
    v.map_values(|x: Vec<char>| x@)
}

/// Collapses whitespace runs to single spaces and trims both ends.
pub fn normalize_string(s: &str) -> (r: String)
    ensures
        r@ == normalized_ws(s@),
{
    let v = chars_of(s);
    let mut words: Vec<Vec<char>> = Vec::new();
    let mut i: usize = 0;
    while i < v.len()
        invariant
            i <= v.len(),
            v@ == s@,
            chars_views(words@) == ws_words(v@.take(i as int)),
            i > 0 && !is_ws(v@[i - 1]) ==> words.len() > 0,
        decreases v.len() - i,
    {
        let c = v[i];
        let ghost prev = v@.take(i as int);
        assert(v@.take(i + 1).drop_last() =~= prev);
        assert(v@.take(i + 1).last() == c);
        if is_whitespace(c) {
        } else if i >= 1 && !is_whitespace(v[i - 1]) {
            assert(v@.take(i + 1)[i - 1] == v@[i - 1]);
            let mut last = words.pop().unwrap();
            last.push(c);
            words.push(last);
            assert(chars_views(words@) =~= ws_words(v@.take(i + 1)));
        } else {
            if i >= 1 {
                assert(v@.take(i + 1)[i - 1] == v@[i - 1]);
            }
            let mut w: Vec<char> = Vec::new();
            w.push(c);
            words.push(w);
            assert(chars_views(words@) =~= ws_words(v@.take(i + 1)));
        }
        i += 1;
    }
    assert(v@.take(v.len() as int) =~= v@);
    let ghost wv = chars_views(words@);
    let mut out = String::new();
    let mut k: usize = 0;
    while k < words.len()
        invariant
            k <= words.len(),
            wv == chars_views(words@),
            out@ == join_with(wv.take(k as int), ' '),
        decreases words.len() - k,
    {
        assert(wv.take(k + 1).drop_last() =~= wv.take(k as int));
        assert(wv.take(k + 1).last() == words@[k as int]@);
        if k > 0 {
            push_char(&mut out, ' ');
        }
        push_chars(&mut out, &words[k]);
        proof {
            if k == 0 {
                assert(wv.take(1)[0] == words@[0]@);
            }
        }
        k += 1;
    }
    assert(wv.take(words.len() as int) =~= wv);
    out
}

// ----------------------------------------------------------------------------
// Decoding
// ----------------------------------------------------------------------------

/// A control character other than tab, newline and carriage return, a
/// private-use character, or the replacement character.
pub open spec fn suspicious(c: char) -> bool {
    (c < ' ' && c != '\t' && c != '\n' && c != '\r') || ('\u{E000}' <= c && c <= '\u{F8FF}') || c == '\u{FFFD}'
}

pub open spec fn count_suspicious(s: Seq<char>) -> nat
    decreases s.len(),
{
    if s.len() == 0 {
        0
    } else {
        count_suspicious(s.drop_last()) + if suspicious(s.last()) { 1nat } else { 0nat }
    }
}

/// A decoded text looks valid when at most one in twenty of its bytes (and
/// at least one character) may be suspicious characters.
pub open spec fn likely_valid(s: Seq<char>) -> bool {
    let threshold = if sat_usize(utf8_len(s)) / 20 > 1 { sat_usize(utf8_len(s)) / 20 } else { 1 };
    s.len() == 0 || count_suspicious(s) <= threshold
}

/// Heuristic check that a decoded text is not garbage.
pub fn is_likely_valid_text(s: &str) -> (r: bool)
    ensures
        r == likely_valid(s@),
{
    let v = chars_of(s);
    if v.len() == 0 {
        return true;
    }
    let mut count: usize = 0;
    let mut i: usize = 0;
    while i < v.len()
        invariant
            i <= v.len(),
            v@ == s@,
            count == count_suspicious(v@.take(i as int)),
            count <= i,
        decreases v.len() - i,
    {
        assert(v@.take(i + 1).drop_last() =~= v@.take(i as int));
        let c = v[i];
        if (c < ' ' && c != '\t' && c != '\n' && c != '\r') || ('\u{E000}' <= c && c <= '\u{F8FF}') || c
            == '\u{FFFD}' {
            count += 1;
        }
        i += 1;
    }
    assert(v@.take(v.len() as int) =~= v@);
    let bytes = utf8_prefix_len(&v, v.len());
    let threshold = if bytes / 20 > 1 { bytes / 20 } else { 1 };
    count <= threshold
}

/// The legacy encodings tried, in this order, when a text is not UTF-8.
#[derive(Debug, Clone, Copy, PartialEq, Eq, Structural)]
pub enum LegacyEncoding {
    Gbk,
    Big5,
    ShiftJis,
    EucJp,
    EucKr,
    Windows1252,
}

pub open spec fn legacy_order() -> Seq<LegacyEncoding> {
    seq![
        LegacyEncoding::Gbk,
        LegacyEncoding::Big5,
        LegacyEncoding::ShiftJis,
        LegacyEncoding::EucJp,
        LegacyEncoding::EucKr,
        LegacyEncoding::Windows1252,
    ]
}

/// What `encoding_rs::Encoding::decode` gives for the encoding and the bytes:
/// the text, and whether malformed sequences were replaced.
pub uninterp spec fn legacy_decoded(enc: LegacyEncoding, bytes: Seq<u8>) -> (Seq<char>, bool);

/// What `String::from_utf8_lossy` gives for the bytes.
pub uninterp spec fn utf8_lossy(bytes: Seq<u8>) -> Seq<char>;

/// `std::str::from_utf8`: the text the bytes encode, when they are valid UTF-8.
#[verifier::external_body]
fn decode_utf8_strict(bytes: &[u8]) -> (r: Option<String>)
    ensures
        match r {
            Some(s) => valid_utf8(bytes@) && s@ == decode_utf8(bytes@),
            None => !valid_utf8(bytes@),
        },
{
    match std::str::from_utf8(bytes) {
        Ok(s) => Some(s.to_string()),
        Err(_) => None,
    }
}

/// `encoding_rs::Encoding::decode` with the named encoding (with its BOM
/// sniffing): the text and whether malformed sequences were replaced. The
/// result is named, not stated.
#[verifier::external_body]
fn decode_legacy(enc: LegacyEncoding, bytes: &[u8]) -> (r: (String, bool))
    ensures
        (r.0@, r.1) == legacy_decoded(enc, bytes@),
{
    let encoding = match enc {
        LegacyEncoding::Gbk => encoding_rs::GBK,
        LegacyEncoding::Big5 => encoding_rs::BIG5,
        LegacyEncoding::ShiftJis => encoding_rs::SHIFT_JIS,
        LegacyEncoding::EucJp => encoding_rs::EUC_JP,
        LegacyEncoding::EucKr => encoding_rs::EUC_KR,
        LegacyEncoding::Windows1252 => encoding_rs::WINDOWS_1252,
    };
    let (text, _, had_errors) = encoding.decode(bytes);
    (text.into_owned(), had_errors)
}

/// `String::from_utf8_lossy`: the bytes as UTF-8 with malformed sequences
/// replaced by U+FFFD. The result is named, not stated.
#[verifier::external_body]
fn decode_lossy(bytes: &[u8]) -> (r: String)
    ensures
        r@ == utf8_lossy(bytes@),
{
    String::from_utf8_lossy(bytes).into_owned()
}

/// The first of the legacy decodings that had no errors and looks valid.
pub open spec fn first_clean(decodings: Seq<(Seq<char>, bool)>) -> Option<Seq<char>>
    decreases decodings.len(),
{
    if decodings.len() == 0 {
        None
    } else if !decodings[0].1 && likely_valid(decodings[0].0) {
        Some(decodings[0].0)
    } else {
        first_clean(decodings.drop_first())
    }
}

/// The choice among the decodings: UTF-8 when it is valid and holds no
/// replacement character; else the first clean legacy decoding; else lossy UTF-8.
pub open spec fn decoding_choice(utf8: Option<Seq<char>>, legacy: Seq<(Seq<char>, bool)>, lossy: Seq<char>) -> Seq<char> {
    match utf8 {
        Some(s) if !s.contains('\u{FFFD}') => s,
        _ => match first_clean(legacy) {
            Some(t) => t,
            None => lossy,
        },
    }
}

/// What the decoders give for `bytes`, in the order they are tried.
pub open spec fn legacy_decodings(bytes: Seq<u8>) -> Seq<(Seq<char>, bool)> {
    legacy_order().map_values(|e: LegacyEncoding| legacy_decoded(e, bytes))
}

pub open spec fn strict_utf8(bytes: Seq<u8>) -> Option<Seq<char>> {
    if valid_utf8(bytes) {
        Some(decode_utf8(bytes))
    } else {
        None
    }
}

/// The text of tag bytes.
pub open spec fn decoded_text(bytes: Seq<u8>) -> Seq<char> {
    decoding_choice(strict_utf8(bytes), legacy_decodings(bytes), utf8_lossy(bytes))
}

fn has_replacement_char(s: &String) -> (r: bool)
    ensures
        r == s@.contains('\u{FFFD}'),
{
    let v = string_chars(s);
    let mut i: usize = 0;
    while i < v.len()
        invariant
            i <= v.len(),
            v@ == s@,
            forall|j: int| 0 <= j < i ==> v@[j] != '\u{FFFD}',
        decreases v.len() - i,
    {
        if v[i] == '\u{FFFD}' {
            assert(s@[i as int] == '\u{FFFD}');
            return true;
        }
        i += 1;
    }
    false
}

/// The choice among given decodings (see [`decoding_choice`]).
pub fn choose_decoding(utf8: Option<String>, legacy: &Vec<(String, bool)>, lossy: String) -> (r: String)
    ensures
        r@ == decoding_choice(
            opt_chars(utf8),
            legacy@.map_values(|d: (String, bool)| (d.0@, d.1)),
            lossy@,
        ),
{
    let ghost u = opt_chars(utf8);
    if let Some(s) = utf8 {
        if !has_replacement_char(&s) {
            return s;
        }
    }
    let ghost lv = legacy@.map_values(|d: (String, bool)| (d.0@, d.1));
    let mut i: usize = 0;
    assert(lv.skip(0) =~= lv);
    while i < legacy.len()
        invariant
            i <= legacy.len(),
            lv == legacy@.map_values(|d: (String, bool)| (d.0@, d.1)),
            first_clean(lv) == first_clean(lv.skip(i as int)),
            !(u is Some && !u->0.contains('\u{FFFD}')),
            u == opt_chars(utf8),
        decreases legacy.len() - i,
    {
        assert(lv.skip(i as int)[0] == lv[i as int]);
        assert(lv.skip(i as int).drop_first() =~= lv.skip(i + 1));
        assert(lv[i as int] == (legacy@[i as int].0@, legacy@[i as int].1));
        if !legacy[i].1 && is_likely_valid_text(legacy[i].0.as_str()) {
            return crate::text::copy_string(&legacy[i].0);
        }
        i += 1;
    }
    assert(lv.skip(i as int).len() == 0);
    lossy
}

/// Decodes tag bytes: as UTF-8 if that is valid and holds no replacement
/// character, else with the first legacy encoding that decodes without
/// errors to valid-looking text, else as lossy UTF-8.
pub fn decode_string(bytes: &[u8]) -> (r: String)
    ensures
        r@ == decoded_text(bytes@),
{
    let utf8 = decode_utf8_strict(bytes);
    if let Some(s) = utf8 {
        if !has_replacement_char(&s) {
            return s;
        }
    }
    let order = vec![
        LegacyEncoding::Gbk,
        LegacyEncoding::Big5,
        LegacyEncoding::ShiftJis,
        LegacyEncoding::EucJp,
        LegacyEncoding::EucKr,
        LegacyEncoding::Windows1252,
    ];
    assert(order@ =~= legacy_order());
    let ghost lv = legacy_decodings(bytes@);
    let mut i: usize = 0;
    assert(lv.skip(0) =~= lv);
    while i < order.len()
        invariant
            i <= order.len(),
            order@ == legacy_order(),
            lv == legacy_decodings(bytes@),
            first_clean(lv) == first_clean(lv.skip(i as int)),
            !(strict_utf8(bytes@) is Some && !strict_utf8(bytes@)->0.contains('\u{FFFD}')),
        decreases order.len() - i,
    {
        assert(lv.skip(i as int)[0] == lv[i as int]);
        assert(lv.skip(i as int).drop_first() =~= lv.skip(i + 1));
        let (text, had_errors) = decode_legacy(order[i], bytes);
        if !had_errors && is_likely_valid_text(text.as_str()) {
            return text;
        }
        i += 1;
    }
    assert(lv.skip(i as int).len() == 0);
    decode_lossy(bytes)
}

} // verus!
