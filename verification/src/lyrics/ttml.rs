//! TTML (Apple Music) lyrics.
//!
//! The XML tokenizer is quick-xml's; what the library does with its tokens is
//! a state machine over [`XmlEvent`]s, stated in full by [`ttml_run`] and
//! [`ttml_from_events`].

use quick_xml::events::Event;
use quick_xml::reader::Reader;
use vstd::prelude::*;
use vstd::utf8::encode_utf8;

use crate::lyrics::types::{empty_line, empty_word, lines_view, words_view, plain_word, LyricLineOwned, LyricWordOwned, SpecLine, SpecWord};
use crate::lyrics::timed::{lemma_lines_view_push, lemma_words_view_push};
use crate::text::{string_of, push_str, string_is_empty, copy_string, string_chars, string_eq_str, find, lemma_find, parse_u64, parse_u64_chars, split, split_chars, subvec, find_char, trim, trim_chars};

verus! {

// ----------------------------------------------------------------------------
// Timestamps
// ----------------------------------------------------------------------------

/// `s` without its trailing `c` characters (`str::trim_end_matches` on a character).
pub open spec fn trim_end_char(s: Seq<char>, c: char) -> Seq<char>
    decreases s.len(),
{
    if s.len() > 0 && s.last() == c {
        trim_end_char(s.drop_last(), c)
    } else {
        s
    }
}

/// Milliseconds of a fraction of a second: one, two or three digits are
/// tenths, hundredths or thousandths; longer fractions keep their first three
/// digits.
pub open spec fn fraction_ms(f: Seq<char>) -> Option<u64> {
    if f.len() == 0 {
        Some(0)
    } else if f.len() <= 3 {
        match parse_u64(f) {
            Some(v) => Some(
                if f.len() == 1 {
                    v.wrapping_mul(100)
                } else if f.len() == 2 {
                    v.wrapping_mul(10)
                } else {
                    v
                },
            ),
            None => None,
        }
    } else {
        parse_u64(f.take(3))
    }
}

/// `SS` or `SS.fff` in milliseconds; the arithmetic wraps modulo 2^64.
pub open spec fn seconds_ms(s: Seq<char>) -> Option<u64> {
    match find(s, '.') {
        Some(d) => match (parse_u64(s.take(d)), fraction_ms(s.skip(d + 1))) {
            (Some(sec), Some(ms)) => Some(sec.wrapping_mul(1000).wrapping_add(ms)),
            _ => None,
        },
        None => match parse_u64(s) {
            Some(sec) => Some(sec.wrapping_mul(1000)),
            None => None,
        },
    }
}

/// A TTML clock value `HH:MM:SS.fff`, `MM:SS.fff` or `SS.fff`, optionally
/// followed by `s` and surrounded by whitespace, in milliseconds; the
/// arithmetic wraps modulo 2^64.
pub open spec fn ttml_time(data: Seq<char>) -> Option<u64> {
    let parts = split(trim_end_char(trim(data), 's'), ':');
    if parts.len() == 1 {
        seconds_ms(parts[0])
    } else if parts.len() == 2 {
        match (parse_u64(parts[0]), seconds_ms(parts[1])) {
            (Some(min), Some(sm)) => Some(min.wrapping_mul(60).wrapping_mul(1000).wrapping_add(sm)),
            _ => None,
        }
    } else if parts.len() == 3 {
        match (parse_u64(parts[0]), parse_u64(parts[1]), seconds_ms(parts[2])) {
            (Some(h), Some(min), Some(sm)) => Some(
                h.wrapping_mul(60).wrapping_mul(60).wrapping_mul(1000).wrapping_add(
                    min.wrapping_mul(60).wrapping_mul(1000),
                ).wrapping_add(sm),
            ),
            _ => None,
        }
    } else {
        None
    }
}

fn trim_end_char_exec(s: &Vec<char>, c: char) -> (r: Vec<char>)
    ensures
        r@ == trim_end_char(s@, c),
{
    let mut k: usize = s.len();
    assert(s@.take(k as int) =~= s@);
    while k > 0 && s[k - 1] == c
        invariant
            k <= s.len(),
            trim_end_char(s@.take(k as int), c) == trim_end_char(s@, c),
        decreases k,
    {
        assert(s@.take(k - 1) =~= s@.take(k as int).drop_last());
        k -= 1;
    }
    let r = subvec(s, 0, k);
    assert(r@ =~= s@.take(k as int));
    r
}

fn fraction_ms_exec(f: &Vec<char>) -> (r: Option<u64>)
    ensures
        r == fraction_ms(f@),
{
    if f.len() == 0 {
        Some(0)
    } else if f.len() <= 3 {
        match parse_u64_chars(f) {
            Some(v) => Some(
                if f.len() == 1 {
                    v.wrapping_mul(100)
                } else if f.len() == 2 {
                    v.wrapping_mul(10)
                } else {
                    v
                },
            ),
            None => None,
        }
    } else {
        let p = subvec(f, 0, 3);
        assert(p@ =~= f@.take(3));
        parse_u64_chars(&p)
    }
}

/// Seconds with an optional fraction, in milliseconds.
pub fn parse_seconds_ms(s: &Vec<char>) -> (r: Option<u64>)
    ensures
        r == seconds_ms(s@),
{
    match find_char(s, '.') {
        Some(d) => {
            proof {
                lemma_find(s@, '.');
            }
            assert(d < s.len());
            let a = subvec(s, 0, d);
            let b = subvec(s, d + 1, s.len());
            assert(a@ =~= s@.take(d as int));
            assert(b@ =~= s@.skip(d + 1));
            match (parse_u64_chars(&a), fraction_ms_exec(&b)) {
                (Some(sec), Some(ms)) => Some(sec.wrapping_mul(1000).wrapping_add(ms)),
                _ => None,
            }
        },
        None => match parse_u64_chars(s) {
            Some(sec) => Some(sec.wrapping_mul(1000)),
            None => None,
        },
    }
}

/// A TTML clock value in milliseconds.
pub fn parse_timestamp(data: &Vec<char>) -> (r: Option<u64>)
    ensures
        r == ttml_time(data@),
{
    let t = trim_chars(data);
    let s = trim_end_char_exec(&t, 's');
    let parts = split_chars(&s, ':');
    proof {
        assert(parts@.len() == split(s@, ':').len());
    }
    if parts.len() == 1 {
        assert(parts@[0]@ == split(s@, ':')[0]);
        parse_seconds_ms(&parts[0])
    } else if parts.len() == 2 {
        assert(parts@[0]@ == split(s@, ':')[0]);
        assert(parts@[1]@ == split(s@, ':')[1]);
        match (parse_u64_chars(&parts[0]), parse_seconds_ms(&parts[1])) {
            (Some(min), Some(sm)) => Some(min.wrapping_mul(60).wrapping_mul(1000).wrapping_add(sm)),
            _ => None,
        }
    } else if parts.len() == 3 {
        assert(parts@[0]@ == split(s@, ':')[0]);
        assert(parts@[1]@ == split(s@, ':')[1]);
        assert(parts@[2]@ == split(s@, ':')[2]);
        match (parse_u64_chars(&parts[0]), parse_u64_chars(&parts[1]), parse_seconds_ms(&parts[2])) {
            (Some(h), Some(min), Some(sm)) => Some(
                h.wrapping_mul(60).wrapping_mul(60).wrapping_mul(1000).wrapping_add(
                    min.wrapping_mul(60).wrapping_mul(1000),
                ).wrapping_add(sm),
            ),
            _ => None,
        }
    } else {
        None
    }
}

// ----------------------------------------------------------------------------
// Tokens and documents
// ----------------------------------------------------------------------------

/// One token of an XML document as the tokenizer hands it over.
pub enum XmlEvent {
    /// A start tag or an empty-element tag: its name and, in order, its
    /// well-formed attributes as (key, raw value).
    Start { name: String, attrs: Vec<(String, String)> },
    /// An end tag.
    End { name: String },
    /// Character data between tags, still escaped.
    Text { raw: String },
    /// The end of the document.
    Eof,
    /// The tokenizer failed, with its message.
    Failed { message: String },
    /// Anything else (declarations, comments, CDATA, references, ...).
    Other,
}

/// Mathematical model of an [`XmlEvent`].
pub enum SpecXmlEvent {
    Start { name: Seq<char>, attrs: Seq<(Seq<char>, Seq<char>)> },
    End { name: Seq<char> },
    Text { raw: Seq<char> },
    Eof,
    Failed { message: Seq<char> },
    Other,
}

pub open spec fn attrs_view(a: Seq<(String, String)>) -> Seq<(Seq<char>, Seq<char>)> {
    a.map_values(|p: (String, String)| (p.0@, p.1@))
}

impl View for XmlEvent {
    type V = SpecXmlEvent;

    open spec fn view(&self) -> SpecXmlEvent {
        match self {
            XmlEvent::Start { name, attrs } => SpecXmlEvent::Start { name: name@, attrs: attrs_view(attrs@) },
            XmlEvent::End { name } => SpecXmlEvent::End { name: name@ },
            XmlEvent::Text { raw } => SpecXmlEvent::Text { raw: raw@ },
            XmlEvent::Eof => SpecXmlEvent::Eof,
            XmlEvent::Failed { message } => SpecXmlEvent::Failed { message: message@ },
            XmlEvent::Other => SpecXmlEvent::Other,
        }
    }
}

pub open spec fn events_view(v: Seq<XmlEvent>) -> Seq<SpecXmlEvent> {
    v.map_values(|e: XmlEvent| e@)
}

/// TTML lyrics with their metadata (key and values, in order of first appearance).
#[derive(Debug, Clone)]
pub struct TTMLLyric {
    pub lines: Vec<LyricLineOwned>,
    pub metadata: Vec<(String, Vec<String>)>,
}

/// Mathematical model of a [`TTMLLyric`].
pub struct SpecTtml {
    pub lines: Seq<SpecLine>,
    pub metadata: Seq<(Seq<char>, Seq<Seq<char>>)>,
}

pub open spec fn strings_view(v: Seq<String>) -> Seq<Seq<char>> {
    v.map_values(|s: String| s@)
}

pub open spec fn metadata_view(m: Seq<(String, Vec<String>)>) -> Seq<(Seq<char>, Seq<Seq<char>>)> {
    m.map_values(|e: (String, Vec<String>)| (e.0@, strings_view(e.1@)))
}

impl View for TTMLLyric {
    type V = SpecTtml;

    open spec fn view(&self) -> SpecTtml {
        SpecTtml { lines: lines_view(self.lines@), metadata: metadata_view(self.metadata@) }
    }
}

impl Default for TTMLLyric {
    fn default() -> (r: Self)
        ensures
            r@.lines == Seq::<SpecLine>::empty(),
            r@.metadata == Seq::<(Seq<char>, Seq<Seq<char>>)>::empty(),
    {
        let r = TTMLLyric { lines: Vec::new(), metadata: Vec::new() };
        assert(r@.lines =~= Seq::<SpecLine>::empty());
        assert(r@.metadata =~= Seq::<(Seq<char>, Seq<Seq<char>>)>::empty());
        r
    }
}

/// Where the parser stands in the document.
#[derive(Debug, Clone, Copy, PartialEq, Eq, Structural)]
pub enum ParseStatus {
    Idle,
    InTtml,
    InHead,
    InMetadata,
    InBody,
    InDiv,
    InP,
    InSpan,
    InTranslationSpan,
    InRomanSpan,
    InBackgroundSpan,
    InSpanInBackgroundSpan,
    InTranslationSpanInBackgroundSpan,
    InRomanSpanInBackgroundSpan,
}

/// The parser's whole state: status, what was read so far, the main agent's
/// id and the text of the span being read.
pub struct TtmlModel {
    pub status: ParseStatus,
    pub lines: Seq<SpecLine>,
    pub metadata: Seq<(Seq<char>, Seq<Seq<char>>)>,
    pub main_agent: Seq<char>,
    pub buf: Seq<char>,
}

pub open spec fn initial_model() -> TtmlModel {
    TtmlModel {
        status: ParseStatus::Idle,
        lines: Seq::empty(),
        metadata: Seq::empty(),
        main_agent: Seq::empty(),
        buf: Seq::empty(),
    }
}

// ----------------------------------------------------------------------------
// Attributes
// ----------------------------------------------------------------------------

/// The value of the last attribute named `key`.
pub open spec fn last_attr(attrs: Seq<(Seq<char>, Seq<char>)>, key: Seq<char>) -> Option<Seq<char>>
    decreases attrs.len(),
{
    if attrs.len() == 0 {
        None
    } else if attrs.last().0 == key {
        Some(attrs.last().1)
    } else {
        last_attr(attrs.drop_last(), key)
    }
}

pub open spec fn or_empty(o: Option<Seq<char>>) -> Seq<char> {
    match o {
        Some(v) => v,
        None => Seq::empty(),
    }
}

/// One attribute applied to a line: the agent decides the duet flag, `begin`
/// and `end` set the times when they parse.
pub open spec fn line_attr(l: SpecLine, a: (Seq<char>, Seq<char>), main_agent: Seq<char>) -> SpecLine {
    if a.0 == "ttm:agent"@ {
        SpecLine { is_duet: a.1 != main_agent, ..l }
    } else if a.0 == "begin"@ {
        match ttml_time(a.1) {
            Some(t) => SpecLine { start_time: t, ..l },
            None => l,
        }
    } else if a.0 == "end"@ {
        match ttml_time(a.1) {
            Some(t) => SpecLine { end_time: t, ..l },
            None => l,
        }
    } else {
        l
    }
}

/// The attributes applied to a line in order.
pub open spec fn configured_line(attrs: Seq<(Seq<char>, Seq<char>)>, main_agent: Seq<char>, l: SpecLine) -> SpecLine
    decreases attrs.len(),
{
    if attrs.len() == 0 {
        l
    } else {
        line_attr(configured_line(attrs.drop_last(), main_agent, l), attrs.last(), main_agent)
    }
}

pub open spec fn word_attr(w: SpecWord, a: (Seq<char>, Seq<char>)) -> SpecWord {
    if a.0 == "begin"@ {
        match ttml_time(a.1) {
            Some(t) => SpecWord { start_time: t, ..w },
            None => w,
        }
    } else if a.0 == "end"@ {
        match ttml_time(a.1) {
            Some(t) => SpecWord { end_time: t, ..w },
            None => w,
        }
    } else {
        w
    }
}

/// A word with the `begin` and `end` attributes applied in order.
pub open spec fn configured_word(attrs: Seq<(Seq<char>, Seq<char>)>) -> SpecWord
    decreases attrs.len(),
{
    if attrs.len() == 0 {
        empty_word()
    } else {
        word_attr(configured_word(attrs.drop_last()), attrs.last())
    }
}

/// The status a `span` opens: the first `ttm:role` attribute that names a
/// background (only directly in a paragraph), a translation or a romanization
/// decides; otherwise it holds a word.
pub open spec fn span_status(attrs: Seq<(Seq<char>, Seq<char>)>, in_bg: bool) -> ParseStatus
    decreases attrs.len(),
{
    if attrs.len() == 0 {
        if in_bg { ParseStatus::InSpanInBackgroundSpan } else { ParseStatus::InSpan }
    } else if attrs[0].0 == "ttm:role"@ && !in_bg && attrs[0].1 == "x-bg"@ {
        ParseStatus::InBackgroundSpan
    } else if attrs[0].0 == "ttm:role"@ && attrs[0].1 == "x-translation"@ {
        if in_bg { ParseStatus::InTranslationSpanInBackgroundSpan } else { ParseStatus::InTranslationSpan }
    } else if attrs[0].0 == "ttm:role"@ && attrs[0].1 == "x-roman"@ {
        if in_bg { ParseStatus::InRomanSpanInBackgroundSpan } else { ParseStatus::InRomanSpan }
    } else {
        span_status(attrs.drop_first(), in_bg)
    }
}

// ----------------------------------------------------------------------------
// The state machine
// ----------------------------------------------------------------------------

/// Index of the last line whose background flag is `bg`.
pub open spec fn last_line(lines: Seq<SpecLine>, bg: bool) -> Option<int>
    decreases lines.len(),
{
    if lines.len() == 0 {
        None
    } else if lines.last().is_bg == bg {
        Some(lines.len() - 1)
    } else {
        last_line(lines.drop_last(), bg)
    }
}

/// Index of the first metadata entry named `key`.
pub open spec fn meta_index(md: Seq<(Seq<char>, Seq<Seq<char>>)>, key: Seq<char>) -> Option<int>
    decreases md.len(),
{
    if md.len() == 0 {
        None
    } else if md[0].0 == key {
        Some(0)
    } else {
        match meta_index(md.drop_first(), key) {
            Some(i) => Some(i + 1),
            None => None,
        }
    }
}

/// `value` added under `key`: to the first entry with that key, or as a new entry.
pub open spec fn meta_add(md: Seq<(Seq<char>, Seq<Seq<char>>)>, key: Seq<char>, value: Seq<char>) -> Seq<(Seq<char>, Seq<Seq<char>>)> {
    match meta_index(md, key) {
        Some(i) => md.update(i, (md[i].0, md[i].1.push(value))),
        None => md.push((key, seq![value])),
    }
}

/// `w` appended to the words of line `i`.
pub open spec fn push_word_at(lines: Seq<SpecLine>, i: int, w: SpecWord) -> Seq<SpecLine> {
    lines.update(i, SpecLine { words: lines[i].words.push(w), ..lines[i] })
}

/// `w` appended to the last line whose background flag is `bg`, if there is one.
pub open spec fn push_word_last(lines: Seq<SpecLine>, bg: bool, w: SpecWord) -> Seq<SpecLine> {
    match last_line(lines, bg) {
        Some(i) => push_word_at(lines, i, w),
        None => lines,
    }
}

/// The text of the last word of line `i` replaced by `t`, if the line has words.
pub open spec fn set_last_word(lines: Seq<SpecLine>, i: int, t: Seq<char>) -> Seq<SpecLine> {
    let l = lines[i];
    if l.words.len() > 0 {
        lines.update(i, SpecLine { words: l.words.update(l.words.len() - 1, SpecWord { word: t, ..l.words.last() }), ..l })
    } else {
        lines
    }
}

#[verifier::opaque]
pub open spec fn on_start(m: TtmlModel, name: Seq<char>, attrs: Seq<(Seq<char>, Seq<char>)>) -> TtmlModel {
    if name == "tt"@ && m.status == ParseStatus::Idle {
        TtmlModel { status: ParseStatus::InTtml, ..m }
    } else if name == "head"@ && m.status == ParseStatus::InTtml {
        TtmlModel { status: ParseStatus::InHead, ..m }
    } else if name == "metadata"@ && m.status == ParseStatus::InHead {
        TtmlModel { status: ParseStatus::InMetadata, ..m }
    } else if name == "ttm:agent"@ && m.main_agent.len() == 0 && m.status == ParseStatus::InMetadata {
        if or_empty(last_attr(attrs, "type"@)) == "person"@ {
            TtmlModel { main_agent: or_empty(last_attr(attrs, "xml:id"@)), ..m }
        } else {
            m
        }
    } else if name == "amll:meta"@ && m.status == ParseStatus::InMetadata {
        let key = or_empty(last_attr(attrs, "key"@));
        if key.len() > 0 {
            TtmlModel { metadata: meta_add(m.metadata, key, or_empty(last_attr(attrs, "value"@))), ..m }
        } else {
            m
        }
    } else if name == "body"@ && m.status == ParseStatus::InTtml {
        TtmlModel { status: ParseStatus::InBody, ..m }
    } else if name == "div"@ && m.status == ParseStatus::InBody {
        TtmlModel { status: ParseStatus::InDiv, ..m }
    } else if name == "p"@ && m.status == ParseStatus::InDiv {
        TtmlModel {
            status: ParseStatus::InP,
            lines: m.lines.push(configured_line(attrs, m.main_agent, empty_line())),
            ..m
        }
    } else if name == "span"@ && m.status == ParseStatus::InP {
        let st = span_status(attrs, false);
        if st == ParseStatus::InBackgroundSpan {
            let duet = if m.lines.len() > 0 { m.lines.last().is_duet } else { false };
            let bg = configured_line(attrs, m.main_agent, SpecLine { is_bg: true, is_duet: duet, ..empty_line() });
            TtmlModel { status: st, lines: m.lines.push(bg), ..m }
        } else if st == ParseStatus::InSpan && m.lines.len() > 0 {
            TtmlModel { status: st, lines: push_word_at(m.lines, m.lines.len() - 1, configured_word(attrs)), ..m }
        } else {
            TtmlModel { status: st, ..m }
        }
    } else if name == "span"@ && m.status == ParseStatus::InBackgroundSpan {
        let st = span_status(attrs, true);
        if st == ParseStatus::InSpanInBackgroundSpan {
            TtmlModel { status: st, lines: push_word_last(m.lines, true, configured_word(attrs)), ..m }
        } else {
            TtmlModel { status: st, ..m }
        }
    } else {
        m
    }
}

/// The end of a span: what was read into the buffer goes where the status says.
#[verifier::opaque]
pub open spec fn on_span_end(m: TtmlModel) -> TtmlModel {
    let cleared = TtmlModel { buf: Seq::empty(), ..m };
    match m.status {
        ParseStatus::InSpan => TtmlModel {
            status: ParseStatus::InP,
            lines: if m.lines.len() > 0 { set_last_word(m.lines, m.lines.len() - 1, m.buf) } else { m.lines },
            ..cleared
        },
        ParseStatus::InBackgroundSpan => TtmlModel { status: ParseStatus::InP, ..cleared },
        ParseStatus::InSpanInBackgroundSpan => TtmlModel {
            status: ParseStatus::InBackgroundSpan,
            lines: match last_line(m.lines, true) {
                Some(i) => set_last_word(m.lines, i, m.buf),
                None => m.lines,
            },
            ..cleared
        },
        ParseStatus::InTranslationSpan => TtmlModel {
            status: ParseStatus::InP,
            lines: match last_line(m.lines, false) {
                Some(i) => if m.lines[i].translated_lyric.len() == 0 {
                    m.lines.update(i, SpecLine { translated_lyric: m.buf, ..m.lines[i] })
                } else {
                    m.lines
                },
                None => m.lines,
            },
            ..cleared
        },
        ParseStatus::InRomanSpan => TtmlModel {
            status: ParseStatus::InP,
            lines: match last_line(m.lines, false) {
                Some(i) => m.lines.update(i, SpecLine { roman_lyric: m.buf, ..m.lines[i] }),
                None => m.lines,
            },
            ..cleared
        },
        ParseStatus::InTranslationSpanInBackgroundSpan => TtmlModel {
            status: ParseStatus::InBackgroundSpan,
            lines: match last_line(m.lines, true) {
                Some(i) => m.lines.update(i, SpecLine { translated_lyric: m.buf, ..m.lines[i] }),
                None => m.lines,
            },
            ..cleared
        },
        ParseStatus::InRomanSpanInBackgroundSpan => TtmlModel {
            status: ParseStatus::InBackgroundSpan,
            lines: match last_line(m.lines, true) {
                Some(i) => m.lines.update(i, SpecLine { roman_lyric: m.buf, ..m.lines[i] }),
                None => m.lines,
            },
            ..cleared
        },
        _ => m,
    }
}

#[verifier::opaque]
pub open spec fn on_end(m: TtmlModel, name: Seq<char>) -> TtmlModel {
    if name == "tt"@ {
        TtmlModel { status: ParseStatus::Idle, ..m }
    } else if name == "head"@ && m.status == ParseStatus::InHead {
        TtmlModel { status: ParseStatus::InTtml, ..m }
    } else if name == "metadata"@ && m.status == ParseStatus::InMetadata {
        TtmlModel { status: ParseStatus::InHead, ..m }
    } else if name == "body"@ && m.status == ParseStatus::InBody {
        TtmlModel { status: ParseStatus::InTtml, ..m }
    } else if name == "div"@ && m.status == ParseStatus::InDiv {
        TtmlModel { status: ParseStatus::InBody, ..m }
    } else if name == "p"@ && m.status == ParseStatus::InP {
        TtmlModel { status: ParseStatus::InDiv, ..m }
    } else if name == "span"@ {
        on_span_end(m)
    } else {
        m
    }
}

/// Whether the status collects text into the buffer.
pub open spec fn collects_text(st: ParseStatus) -> bool {
    st == ParseStatus::InSpan || st == ParseStatus::InTranslationSpan || st == ParseStatus::InRomanSpan
        || st == ParseStatus::InSpanInBackgroundSpan || st == ParseStatus::InTranslationSpanInBackgroundSpan
        || st == ParseStatus::InRomanSpanInBackgroundSpan
}

/// Unescaped text: a loose word in a paragraph or a background span, or more
/// of the span being read.
#[verifier::opaque]
pub open spec fn on_text(m: TtmlModel, txt: Seq<char>) -> TtmlModel {
    if m.status == ParseStatus::InP {
        TtmlModel { lines: push_word_last(m.lines, false, plain_word(0, 0, txt)), ..m }
    } else if m.status == ParseStatus::InBackgroundSpan {
        TtmlModel { lines: push_word_last(m.lines, true, plain_word(0, 0, txt)), ..m }
    } else if collects_text(m.status) {
        TtmlModel { buf: m.buf + txt, ..m }
    } else {
        m
    }
}

/// The events from the first on, from state `m`: up to the end of the
/// document, or the first failure.
pub open spec fn ttml_run(evs: Seq<SpecXmlEvent>, m: TtmlModel) -> Result<TtmlModel, Seq<char>>
    decreases evs.len(),
{
    if evs.len() == 0 {
        Ok(m)
    } else {
        match evs[0] {
            SpecXmlEvent::Eof => Ok(m),
            SpecXmlEvent::Failed { message } => Err("XML parse error: "@ + message),
            SpecXmlEvent::Start { name, attrs } => ttml_run(evs.drop_first(), on_start(m, name, attrs)),
            SpecXmlEvent::End { name } => ttml_run(evs.drop_first(), on_end(m, name)),
            SpecXmlEvent::Text { raw } => ttml_run(
                evs.drop_first(),
                match xml_unescaped(raw) {
                    Some(t) => on_text(m, t),
                    None => m,
                },
            ),
            SpecXmlEvent::Other => ttml_run(evs.drop_first(), m),
        }
    }
}

/// A background line loses an opening parenthesis on its first word and a
/// closing one on its last; a line without times takes them from its words.
pub open spec fn finish_line(l: SpecLine) -> SpecLine {
    let l1 = if l.is_bg && l.words.len() > 0 && l.words[0].word.len() > 0 && l.words[0].word[0] == '(' {
        SpecLine { words: l.words.update(0, SpecWord { word: l.words[0].word.drop_first(), ..l.words[0] }), ..l }
    } else {
        l
    };
    let l2 = if l1.is_bg && l1.words.len() > 0 && l1.words.last().word.len() > 0 && l1.words.last().word.last() == ')' {
        SpecLine {
            words: l1.words.update(l1.words.len() - 1, SpecWord { word: l1.words.last().word.drop_last(), ..l1.words.last() }),
            ..l1
        }
    } else {
        l1
    };
    let l3 = if l2.words.len() > 0 && l2.start_time == 0 { SpecLine { start_time: l2.words[0].start_time, ..l2 } } else { l2 };
    if l3.words.len() > 0 && l3.end_time == 0 { SpecLine { end_time: l3.words.last().end_time, ..l3 } } else { l3 }
}

/// The lyrics that a sequence of tokens describes, or the tokenizer's error.
pub open spec fn ttml_from_events(evs: Seq<SpecXmlEvent>) -> Result<SpecTtml, Seq<char>> {
    match ttml_run(evs, initial_model()) {
        Ok(m) => Ok(SpecTtml { lines: m.lines.map_values(|l: SpecLine| finish_line(l)), metadata: m.metadata }),
        Err(e) => Err(e),
    }
}

/// What `quick_xml::escape::unescape` makes of a raw text (`None` where it fails).
pub uninterp spec fn xml_unescaped(raw: Seq<char>) -> Option<Seq<char>>;

/// `quick_xml::escape::unescape`: the text with its entity and character
/// references replaced, or `None` where a reference is malformed or unknown.
/// The result is named, not stated.
#[verifier::external_body]
fn unescape_text(raw: &str) -> (r: Option<String>)
    ensures
        match r {
            Some(t) => xml_unescaped(raw@) == Some(t@),
            None => xml_unescaped(raw@) is None,
        },
{
    match quick_xml::escape::unescape(raw) {
        Ok(t) => Some(t.into_owned()),
        Err(_) => None,
    }
}

// ----------------------------------------------------------------------------
// Executable counterparts of the attribute and line helpers
// ----------------------------------------------------------------------------

/// The value of the last attribute named `key`, or the empty string.
fn attr_or_empty(attrs: &Vec<(String, String)>, key: &str) -> (r: String)
    ensures
        r@ == or_empty(last_attr(attrs_view(attrs@), key@)),
{
    let ghost av = attrs_view(attrs@);
    let mut k: usize = attrs.len();
    assert(av.take(k as int) =~= av);
    while k > 0
        invariant
            k <= attrs.len(),
            av == attrs_view(attrs@),
            last_attr(av, key@) == last_attr(av.take(k as int), key@),
        decreases k,
    {
        assert(av.take(k as int).last() == (attrs@[k - 1].0@, attrs@[k - 1].1@));
        if string_eq_str(&attrs[k - 1].0, key) {
            return copy_string(&attrs[k - 1].1);
        }
        assert(av.take(k - 1) =~= av.take(k as int).drop_last());
        k -= 1;
    }
    String::new()
}

fn configure_line(attrs: &Vec<(String, String)>, main_agent: &String, line: &mut LyricLineOwned)
    ensures
        final(line)@ == configured_line(attrs_view(attrs@), main_agent@, old(line)@),
{
    let ghost av = attrs_view(attrs@);
    let ghost l0 = line@;
    let mut i: usize = 0;
    assert(av.take(0) =~= Seq::<(Seq<char>, Seq<char>)>::empty());
    while i < attrs.len()
        invariant
            i <= attrs.len(),
            av == attrs_view(attrs@),
            line@ == configured_line(av.take(i as int), main_agent@, l0),
        decreases attrs.len() - i,
    {
        assert(av.take(i + 1).drop_last() =~= av.take(i as int));
        assert(av.take(i + 1).last() == (attrs@[i as int].0@, attrs@[i as int].1@));
        let key = &attrs[i].0;
        let value = &attrs[i].1;
        if string_eq_str(key, "ttm:agent") {
            line.is_duet = !(*value == *main_agent);
        } else if string_eq_str(key, "begin") {
            let v = string_chars(value);
            if let Some(t) = parse_timestamp(&v) {
                line.start_time = t;
            }
        } else if string_eq_str(key, "end") {
            let v = string_chars(value);
            if let Some(t) = parse_timestamp(&v) {
                line.end_time = t;
            }
        }
        i += 1;
    }
    assert(av.take(attrs.len() as int) =~= av);
}

fn configure_word(attrs: &Vec<(String, String)>) -> (r: LyricWordOwned)
    ensures
        r@ == configured_word(attrs_view(attrs@)),
{
    let ghost av = attrs_view(attrs@);
    let mut w = LyricWordOwned::default();
    let mut i: usize = 0;
    assert(av.take(0) =~= Seq::<(Seq<char>, Seq<char>)>::empty());
    while i < attrs.len()
        invariant
            i <= attrs.len(),
            av == attrs_view(attrs@),
            w@ == configured_word(av.take(i as int)),
        decreases attrs.len() - i,
    {
        assert(av.take(i + 1).drop_last() =~= av.take(i as int));
        assert(av.take(i + 1).last() == (attrs@[i as int].0@, attrs@[i as int].1@));
        let key = &attrs[i].0;
        if string_eq_str(key, "begin") {
            let v = string_chars(&attrs[i].1);
            if let Some(t) = parse_timestamp(&v) {
                w.start_time = t;
            }
        } else if string_eq_str(key, "end") {
            let v = string_chars(&attrs[i].1);
            if let Some(t) = parse_timestamp(&v) {
                w.end_time = t;
            }
        }
        i += 1;
    }
    assert(av.take(attrs.len() as int) =~= av);
    w
}

fn span_status_exec(attrs: &Vec<(String, String)>, in_bg: bool) -> (r: ParseStatus)
    ensures
        r == span_status(attrs_view(attrs@), in_bg),
{
    let ghost av = attrs_view(attrs@);
    let mut i: usize = 0;
    assert(av.skip(0) =~= av);
    while i < attrs.len()
        invariant
            i <= attrs.len(),
            av == attrs_view(attrs@),
            span_status(av, in_bg) == span_status(av.skip(i as int), in_bg),
        decreases attrs.len() - i,
    {
        assert(av.skip(i as int)[0] == (attrs@[i as int].0@, attrs@[i as int].1@));
        assert(av.skip(i as int).drop_first() =~= av.skip(i + 1));
        if string_eq_str(&attrs[i].0, "ttm:role") {
            let v = &attrs[i].1;
            if !in_bg && string_eq_str(v, "x-bg") {
                return ParseStatus::InBackgroundSpan;
            } else if string_eq_str(v, "x-translation") {
                return if in_bg { ParseStatus::InTranslationSpanInBackgroundSpan } else { ParseStatus::InTranslationSpan };
            } else if string_eq_str(v, "x-roman") {
                return if in_bg { ParseStatus::InRomanSpanInBackgroundSpan } else { ParseStatus::InRomanSpan };
            }
        }
        i += 1;
    }
    assert(av.skip(attrs.len() as int).len() == 0);
    if in_bg { ParseStatus::InSpanInBackgroundSpan } else { ParseStatus::InSpan }
}

fn last_line_exec(lines: &Vec<LyricLineOwned>, bg: bool) -> (r: Option<usize>)
    ensures
        match r {
            Some(i) => last_line(lines_view(lines@), bg) == Some(i as int) && i < lines.len(),
            None => last_line(lines_view(lines@), bg) is None,
        },
{
    let ghost lv = lines_view(lines@);
    let mut k: usize = lines.len();
    assert(lv.take(k as int) =~= lv);
    while k > 0
        invariant
            k <= lines.len(),
            lv == lines_view(lines@),
            last_line(lv, bg) == last_line(lv.take(k as int), bg),
        decreases k,
    {
        assert(lv.take(k as int).last() == lines@[k - 1]@);
        if lines[k - 1].is_bg == bg {
            return Some(k - 1);
        }
        assert(lv.take(k - 1) =~= lv.take(k as int).drop_last());
        k -= 1;
    }
    None
}

pub proof fn lemma_meta_index(md: Seq<(Seq<char>, Seq<Seq<char>>)>, key: Seq<char>)
    ensures
        match meta_index(md, key) {
            Some(i) => 0 <= i < md.len() && md[i].0 == key && forall|j: int| 0 <= j < i ==> md[j].0 != key,
            None => forall|j: int| 0 <= j < md.len() ==> md[j].0 != key,
        },
    decreases md.len(),
{
    if md.len() > 0 && md[0].0 != key {
        lemma_meta_index(md.drop_first(), key);
        assert forall|j: int| 0 < j < md.len() implies md[j] == md.drop_first()[j - 1] by {}
    }
}

fn meta_index_exec(md: &Vec<(String, Vec<String>)>, key: &String) -> (r: Option<usize>)
    ensures
        match r {
            Some(i) => meta_index(metadata_view(md@), key@) == Some(i as int) && i < md.len(),
            None => meta_index(metadata_view(md@), key@) is None,
        },
{
    let ghost mv = metadata_view(md@);
    proof {
        lemma_meta_index(mv, key@);
    }
    let mut i: usize = 0;
    while i < md.len()
        invariant
            i <= md.len(),
            mv == metadata_view(md@),
            forall|j: int| 0 <= j < i ==> mv[j].0 != key@,
            match meta_index(mv, key@) {
                Some(k) => 0 <= k < mv.len() && mv[k].0 == key@ && forall|j: int| 0 <= j < k ==> mv[j].0 != key@,
                None => forall|j: int| 0 <= j < mv.len() ==> mv[j].0 != key@,
            },
        decreases md.len() - i,
    {
        assert(mv[i as int].0 == md@[i as int].0@);
        if md[i].0 == *key {
            proof {
                match meta_index(mv, key@) {
                    Some(k) => {
                        assert(k == i);
                    },
                    None => {},
                }
            }
            return Some(i);
        }
        i += 1;
    }
    None
}

// ----------------------------------------------------------------------------
// Executable state machine
// ----------------------------------------------------------------------------

fn push_word_at_exec(lines: &mut Vec<LyricLineOwned>, i: usize, w: LyricWordOwned)
    requires
        i < old(lines).len(),
    ensures
        lines_view(final(lines)@) == push_word_at(lines_view(old(lines)@), i as int, w@),
        final(lines).len() == old(lines).len(),
{
    let ghost l0 = lines@[i as int];
    lines[i].words.push(w);
    proof {
        lemma_words_view_push(l0.words@, w);
        assert(lines_view(lines@) =~= push_word_at(lines_view(old(lines)@), i as int, w@));
    }
}

fn push_word_last_exec(lines: &mut Vec<LyricLineOwned>, bg: bool, w: LyricWordOwned)
    ensures
        lines_view(final(lines)@) == push_word_last(lines_view(old(lines)@), bg, w@),
{
    match last_line_exec(lines, bg) {
        Some(i) => push_word_at_exec(lines, i, w),
        None => {},
    }
}

fn set_last_word_exec(lines: &mut Vec<LyricLineOwned>, i: usize, t: &String)
    requires
        i < old(lines).len(),
    ensures
        lines_view(final(lines)@) == set_last_word(lines_view(old(lines)@), i as int, t@),
{
    let n = lines[i].words.len();
    if n > 0 {
        let ghost l0 = lines@[i as int];
        lines[i].words[n - 1].word = copy_string(t);
        proof {
            assert(words_view(lines@[i as int].words@) =~= words_view(l0.words@).update(
                n - 1,
                SpecWord { word: t@, ..words_view(l0.words@).last() },
            ));
            assert(lines_view(lines@) =~= set_last_word(lines_view(old(lines)@), i as int, t@));
        }
    } else {
        assert(lines_view(lines@) =~= set_last_word(lines_view(old(lines)@), i as int, t@));
    }
}

fn set_translation_at(lines: &mut Vec<LyricLineOwned>, i: usize, t: &String)
    requires
        i < old(lines).len(),
    ensures
        lines_view(final(lines)@) == lines_view(old(lines)@).update(
            i as int,
            SpecLine { translated_lyric: t@, ..lines_view(old(lines)@)[i as int] },
        ),
{
    lines[i].translated_lyric = copy_string(t);
    assert(lines_view(lines@) =~= lines_view(old(lines)@).update(
        i as int,
        SpecLine { translated_lyric: t@, ..lines_view(old(lines)@)[i as int] },
    ));
}

fn set_roman_at(lines: &mut Vec<LyricLineOwned>, i: usize, t: &String)
    requires
        i < old(lines).len(),
    ensures
        lines_view(final(lines)@) == lines_view(old(lines)@).update(
            i as int,
            SpecLine { roman_lyric: t@, ..lines_view(old(lines)@)[i as int] },
        ),
{
    lines[i].roman_lyric = copy_string(t);
    assert(lines_view(lines@) =~= lines_view(old(lines)@).update(
        i as int,
        SpecLine { roman_lyric: t@, ..lines_view(old(lines)@)[i as int] },
    ));
}

/// The parser's working state.
struct TtmlState {
    status: ParseStatus,
    result: TTMLLyric,
    main_agent: String,
    buf: String,
}

impl View for TtmlState {
    type V = TtmlModel;

    closed spec fn view(&self) -> TtmlModel {
        TtmlModel {
            status: self.status,
            lines: lines_view(self.result.lines@),
            metadata: metadata_view(self.result.metadata@),
            main_agent: self.main_agent@,
            buf: self.buf@,
        }
    }
}

impl TtmlState {
    fn add_meta(&mut self, key: String, value: String)
        ensures
            final(self)@ == (TtmlModel { metadata: meta_add(old(self)@.metadata, key@, value@), ..old(self)@ }),
    {
        let ghost mv = old(self)@.metadata;
        match meta_index_exec(&self.result.metadata, &key) {
            Some(i) => {
                let ghost e0 = self.result.metadata@[i as int];
                self.result.metadata[i].1.push(value);
                assert(strings_view(self.result.metadata@[i as int].1@) =~= strings_view(e0.1@).push(value@));
                assert(metadata_view(self.result.metadata@) =~= meta_add(mv, key@, value@));
            },
            None => {
                let ghost k = key@;
                let ghost v = value@;
                let entry = (key, vec![value]);
                self.result.metadata.push(entry);
                assert(strings_view(entry.1@) =~= seq![v]);
                assert(metadata_view(self.result.metadata@) =~= meta_add(mv, k, v));
            },
        }
    }

    fn start(&mut self, name: &String, attrs: &Vec<(String, String)>)
        ensures
            final(self)@ == on_start(old(self)@, name@, attrs_view(attrs@)),
    {
        reveal(on_start);
        if string_eq_str(name, "tt") && self.status == ParseStatus::Idle {
            self.status = ParseStatus::InTtml;
        } else if string_eq_str(name, "head") && self.status == ParseStatus::InTtml {
            self.status = ParseStatus::InHead;
        } else if string_eq_str(name, "metadata") && self.status == ParseStatus::InHead {
            self.status = ParseStatus::InMetadata;
        } else if string_eq_str(name, "ttm:agent") && string_is_empty(&self.main_agent) && self.status
            == ParseStatus::InMetadata {
            let agent_type = attr_or_empty(attrs, "type");
            if string_eq_str(&agent_type, "person") {
                self.main_agent = attr_or_empty(attrs, "xml:id");
            }
        } else if string_eq_str(name, "amll:meta") && self.status == ParseStatus::InMetadata {
            let key = attr_or_empty(attrs, "key");
            if !string_is_empty(&key) {
                let value = attr_or_empty(attrs, "value");
                self.add_meta(key, value);
            }
        } else if string_eq_str(name, "body") && self.status == ParseStatus::InTtml {
            self.status = ParseStatus::InBody;
        } else if string_eq_str(name, "div") && self.status == ParseStatus::InBody {
            self.status = ParseStatus::InDiv;
        } else if string_eq_str(name, "p") && self.status == ParseStatus::InDiv {
            let mut line = LyricLineOwned::default();
            configure_line(attrs, &self.main_agent, &mut line);
            proof {
                lemma_lines_view_push(self.result.lines@, line);
            }
            self.result.lines.push(line);
            self.status = ParseStatus::InP;
        } else if string_eq_str(name, "span") && self.status == ParseStatus::InP {
            let st = span_status_exec(attrs, false);
            if st == ParseStatus::InBackgroundSpan {
                let n = self.result.lines.len();
                let duet = if n > 0 { self.result.lines[n - 1].is_duet } else { false };
                let mut bg = LyricLineOwned::default();
                bg.is_bg = true;
                bg.is_duet = duet;
                configure_line(attrs, &self.main_agent, &mut bg);
                proof {
                    lemma_lines_view_push(self.result.lines@, bg);
                }
                self.result.lines.push(bg);
            } else if st == ParseStatus::InSpan && self.result.lines.len() > 0 {
                let w = configure_word(attrs);
                let n = self.result.lines.len();
                push_word_at_exec(&mut self.result.lines, n - 1, w);
            }
            self.status = st;
        } else if string_eq_str(name, "span") && self.status == ParseStatus::InBackgroundSpan {
            let st = span_status_exec(attrs, true);
            if st == ParseStatus::InSpanInBackgroundSpan {
                let w = configure_word(attrs);
                push_word_last_exec(&mut self.result.lines, true, w);
            }
            self.status = st;
        }
    }

    fn span_end(&mut self)
        ensures
            final(self)@ == on_span_end(old(self)@),
    {
        reveal(on_span_end);
        match self.status {
            ParseStatus::InSpan => {
                let n = self.result.lines.len();
                if n > 0 {
                    set_last_word_exec(&mut self.result.lines, n - 1, &self.buf);
                }
                self.status = ParseStatus::InP;
                self.buf = String::new();
            },
            ParseStatus::InBackgroundSpan => {
                self.status = ParseStatus::InP;
                self.buf = String::new();
            },
            ParseStatus::InSpanInBackgroundSpan => {
                if let Some(i) = last_line_exec(&self.result.lines, true) {
                    set_last_word_exec(&mut self.result.lines, i, &self.buf);
                }
                self.status = ParseStatus::InBackgroundSpan;
                self.buf = String::new();
            },
            ParseStatus::InTranslationSpan => {
                if let Some(i) = last_line_exec(&self.result.lines, false) {
                    if string_is_empty(&self.result.lines[i].translated_lyric) {
                        set_translation_at(&mut self.result.lines, i, &self.buf);
                    }
                }
                self.status = ParseStatus::InP;
                self.buf = String::new();
            },
            ParseStatus::InRomanSpan => {
                if let Some(i) = last_line_exec(&self.result.lines, false) {
                    set_roman_at(&mut self.result.lines, i, &self.buf);
                }
                self.status = ParseStatus::InP;
                self.buf = String::new();
            },
            ParseStatus::InTranslationSpanInBackgroundSpan => {
                if let Some(i) = last_line_exec(&self.result.lines, true) {
                    set_translation_at(&mut self.result.lines, i, &self.buf);
                }
                self.status = ParseStatus::InBackgroundSpan;
                self.buf = String::new();
            },
            ParseStatus::InRomanSpanInBackgroundSpan => {
                if let Some(i) = last_line_exec(&self.result.lines, true) {
                    set_roman_at(&mut self.result.lines, i, &self.buf);
                }
                self.status = ParseStatus::InBackgroundSpan;
                self.buf = String::new();
            },
            _ => {},
        }
    }

    fn end(&mut self, name: &String)
        ensures
            final(self)@ == on_end(old(self)@, name@),
    {
        reveal(on_end);
        if string_eq_str(name, "tt") {
            self.status = ParseStatus::Idle;
        } else if string_eq_str(name, "head") && self.status == ParseStatus::InHead {
            self.status = ParseStatus::InTtml;
        } else if string_eq_str(name, "metadata") && self.status == ParseStatus::InMetadata {
            self.status = ParseStatus::InHead;
        } else if string_eq_str(name, "body") && self.status == ParseStatus::InBody {
            self.status = ParseStatus::InTtml;
        } else if string_eq_str(name, "div") && self.status == ParseStatus::InDiv {
            self.status = ParseStatus::InBody;
        } else if string_eq_str(name, "p") && self.status == ParseStatus::InP {
            self.status = ParseStatus::InDiv;
        } else if string_eq_str(name, "span") {
            self.span_end();
        }
    }

    fn text(&mut self, txt: String)
        ensures
            final(self)@ == on_text(old(self)@, txt@),
    {
        reveal(on_text);
        if self.status == ParseStatus::InP {
            push_word_last_exec(&mut self.result.lines, false, LyricWordOwned::plain(0, 0, txt));
        } else if self.status == ParseStatus::InBackgroundSpan {
            push_word_last_exec(&mut self.result.lines, true, LyricWordOwned::plain(0, 0, txt));
        } else if self.status == ParseStatus::InSpan || self.status == ParseStatus::InTranslationSpan
            || self.status == ParseStatus::InRomanSpan || self.status == ParseStatus::InSpanInBackgroundSpan
            || self.status == ParseStatus::InTranslationSpanInBackgroundSpan || self.status
            == ParseStatus::InRomanSpanInBackgroundSpan {
            push_str(&mut self.buf, txt.as_str());
        }
    }
}

// ----------------------------------------------------------------------------
// From tokens to lyrics
// ----------------------------------------------------------------------------

fn finish_line_exec(line: LyricLineOwned) -> (r: LyricLineOwned)
    ensures
        r@ == finish_line(line@),
{
    let ghost l0 = line@;
    let mut l = line;
    let n = l.words.len();
    if l.is_bg && n > 0 {
        let w0 = string_chars(&l.words[0].word);
        if w0.len() > 0 && w0[0] == '(' {
            let rest = subvec(&w0, 1, w0.len());
            assert(rest@ =~= w0@.drop_first());
            let ghost before = l@;
            l.words[0].word = string_of(&rest);
            assert(l@.words =~= before.words.update(0, SpecWord { word: w0@.drop_first(), ..before.words[0] }));
        }
    }
    let ghost l1 = l@;
    assert(l1 == (if l0.is_bg && l0.words.len() > 0 && l0.words[0].word.len() > 0 && l0.words[0].word[0] == '(' {
        SpecLine { words: l0.words.update(0, SpecWord { word: l0.words[0].word.drop_first(), ..l0.words[0] }), ..l0 }
    } else {
        l0
    }));
    if l.is_bg && n > 0 {
        let wl = string_chars(&l.words[n - 1].word);
        if wl.len() > 0 && wl[wl.len() - 1] == ')' {
            let rest = subvec(&wl, 0, wl.len() - 1);
            assert(rest@ =~= wl@.drop_last());
            let ghost before = l@;
            l.words[n - 1].word = string_of(&rest);
            assert(l@.words =~= before.words.update(n - 1, SpecWord { word: wl@.drop_last(), ..before.words[n - 1] }));
        }
    }
    if n > 0 && l.start_time == 0 {
        l.start_time = l.words[0].start_time;
    }
    if n > 0 && l.end_time == 0 {
        l.end_time = l.words[n - 1].end_time;
    }
    l
}

fn finish_lines(lines: &mut Vec<LyricLineOwned>)
    ensures
        lines_view(final(lines)@) == lines_view(old(lines)@).map_values(|l: SpecLine| finish_line(l)),
{
    let ghost lv0 = lines_view(lines@);
    let mut i: usize = 0;
    while i < lines.len()
        invariant
            i <= lines.len(),
            lines.len() == lv0.len(),
            forall|j: int| 0 <= j < i ==> #[trigger] lines@[j]@ == finish_line(lv0[j]),
            forall|j: int| i <= j < lines.len() ==> #[trigger] lines@[j]@ == lv0[j],
        decreases lines.len() - i,
    {
        let mut tmp = LyricLineOwned::default();
        std::mem::swap(&mut tmp, &mut lines[i]);
        let f = finish_line_exec(tmp);
        lines[i] = f;
        i += 1;
    }
    assert(lines_view(lines@) =~= lv0.map_values(|l: SpecLine| finish_line(l)));
}

/// The lyrics that a sequence of tokens describes: the tokens are read up to
/// the end of the document, and the first tokenizer failure is the error.
pub fn parse_ttml_events(events: &Vec<XmlEvent>) -> (r: Result<TTMLLyric, String>)
    ensures
        match r {
            Ok(t) => ttml_from_events(events_view(events@)) == Ok::<SpecTtml, Seq<char>>(t@),
            Err(e) => ttml_from_events(events_view(events@)) == Err::<SpecTtml, Seq<char>>(e@),
        },
{
    let ghost ev = events_view(events@);
    let mut st = TtmlState {
        status: ParseStatus::Idle,
        result: TTMLLyric::default(),
        main_agent: String::new(),
        buf: String::new(),
    };
    assert(st@ == initial_model());
    assert(ev.skip(0) =~= ev);
    let mut i: usize = 0;
    while i < events.len()
        invariant
            i <= events.len(),
            ev == events_view(events@),
            ttml_run(ev, initial_model()) == ttml_run(ev.skip(i as int), st@),
        ensures
            ttml_run(ev, initial_model()) == Ok::<TtmlModel, Seq<char>>(st@),
        decreases events.len() - i,
    {
        assert(ev.skip(i as int)[0] == events@[i as int]@);
        assert(ev.skip(i as int).drop_first() =~= ev.skip(i + 1));
        match &events[i] {
            XmlEvent::Eof => {
                break;
            },
            XmlEvent::Failed { message } => {
                let mut e = String::new();
                push_str(&mut e, "XML parse error: ");
                push_str(&mut e, message.as_str());
                return Err(e);
            },
            XmlEvent::Start { name, attrs } => st.start(name, attrs),
            XmlEvent::End { name } => st.end(name),
            XmlEvent::Text { raw } => {
                if let Some(t) = unescape_text(raw.as_str()) {
                    st.text(t);
                }
            },
            XmlEvent::Other => {},
        }
        i += 1;
        if i == events.len() {
            assert(ev.skip(i as int).len() == 0);
        }
    }
    let ghost m = st@;
    let mut lyric = st.result;
    finish_lines(&mut lyric.lines);
    assert(lyric@.metadata == m.metadata);
    Ok(lyric)
}

// ----------------------------------------------------------------------------
// The tokenizer
// ----------------------------------------------------------------------------

#[verifier::external_type_specification]
#[verifier::external_body]
#[verifier::reject_recursive_types(R)]
pub struct ExXmlReader<R>(Reader<R>);

/// The `i`-th token (counting from 0) that `quick_xml::reader::Reader::read_event`
/// gives, converted to an [`XmlEvent`], on a reader that `Reader::from_str`
/// made of `data`: the tokenizer reads nothing but `data`, so its tokens are a
/// fixed function of the text.
pub uninterp spec fn xml_token(data: Seq<char>, i: nat) -> SpecXmlEvent;

/// A tokenizer over a text, with the text and how many tokens it has given.
pub struct XmlTokenizer<'a> {
    reader: Reader<&'a [u8]>,
    text: Ghost<Seq<char>>,
    given: Ghost<nat>,
}

impl<'a> XmlTokenizer<'a> {
    /// The text being read.
    pub closed spec fn text(self) -> Seq<char> {
        self.text@
    }

    /// How many tokens have been read.
    pub closed spec fn given(self) -> nat {
        self.given@
    }
}

/// `quick_xml::reader::Reader::from_str`: a tokenizer at the start of `data`,
/// that has given no token yet.
#[verifier::external_body]
fn xml_reader<'a>(data: &'a str) -> (r: XmlTokenizer<'a>)
    ensures
        r.text() == data@,
        r.given() == 0,
{
    XmlTokenizer { reader: Reader::from_str(data), text: Ghost(data@), given: Ghost(0) }
}

/// `quick_xml::reader::Reader::read_event`: the next token, converted to an
/// [`XmlEvent`] (start and empty-element tags alike, with their well-formed
/// attributes; the error by its message); that is [`xml_token`] of the text at
/// the number of tokens given so far.
#[verifier::external_body]
fn next_xml_event(t: &mut XmlTokenizer) -> (r: XmlEvent)
    ensures
        r@ == xml_token(old(t).text(), old(t).given()),
        final(t).text() == old(t).text(),
        final(t).given() == old(t).given() + 1,
{
    match t.reader.read_event() {
        Ok(Event::Start(e)) | Ok(Event::Empty(e)) => XmlEvent::Start {
            name: e.name().as_ref().to_string(),
            attrs: e.attributes().flatten().map(|a| (a.key.as_ref().to_string(), a.value.into_owned())).collect(),
        },
        Ok(Event::End(e)) => XmlEvent::End { name: e.name().as_ref().to_string() },
        Ok(Event::Text(e)) => XmlEvent::Text { raw: e.as_ref().to_string() },
        Ok(Event::Eof) => XmlEvent::Eof,
        Ok(_) => XmlEvent::Other,
        Err(e) => XmlEvent::Failed { message: e.to_string() },
    }
}

/// Whether a token ends the reading: the end of the document or a failure.
pub open spec fn ends_reading(e: SpecXmlEvent) -> bool {
    e is Eof || e is Failed
}

/// The tokens of `data` from the `i`-th on, up to the first that ends the
/// reading, and at most `left + 1` of them.
pub open spec fn tokens_from(data: Seq<char>, i: nat, left: nat) -> Seq<SpecXmlEvent>
    decreases left,
{
    if ends_reading(xml_token(data, i)) || left == 0 {
        seq![xml_token(data, i)]
    } else {
        seq![xml_token(data, i)] + tokens_from(data, i + 1, (left - 1) as nat)
    }
}

/// The tokens that a TTML document is read from: those of the text up to the
/// end of the document or the first failure, and at most `n + 1` of them for a
/// text of `n` bytes. The parser reads exactly these tokens. That the bound
/// cuts nothing off rests on quick-xml giving no token but the end without
/// consuming a byte; this holds of the quick-xml version this crate builds
/// with, but is not proved here.
pub open spec fn ttml_tokens(data: Seq<char>) -> Seq<SpecXmlEvent> {
    tokens_from(data, 0, encode_utf8(data).len())
}

/// Parses a TTML document: its tokens (see [`ttml_tokens`]) go through
/// [`parse_ttml_events`].
pub fn parse_ttml(data: &str) -> (r: Result<TTMLLyric, String>)
    ensures
        match r {
            Ok(t) => ttml_from_events(ttml_tokens(data@)) == Ok::<SpecTtml, Seq<char>>(t@),
            Err(e) => ttml_from_events(ttml_tokens(data@)) == Err::<SpecTtml, Seq<char>>(e@),
        },
{
    let mut tokens = xml_reader(data);
    let mut events: Vec<XmlEvent> = Vec::new();
    let bytes = data.as_bytes();
    let mut remaining: usize = bytes.len();
    assert(remaining as nat == encode_utf8(data@).len());
    assert(events_view(events@) =~= Seq::<SpecXmlEvent>::empty());
    assert(events_view(events@) + tokens_from(data@, 0, remaining as nat) =~= ttml_tokens(data@));
    loop
        invariant_except_break
            tokens.text() == data@,
            events_view(events@) + tokens_from(data@, tokens.given(), remaining as nat) == ttml_tokens(data@),
        ensures
            events_view(events@) == ttml_tokens(data@),
        decreases remaining,
    {
        let ghost before = events_view(events@);
        let ghost at = tokens.given();
        let ev = next_xml_event(&mut tokens);
        let stop = match ev {
            XmlEvent::Eof => true,
            XmlEvent::Failed { .. } => true,
            _ => false,
        };
        let ghost evv = ev@;
        events.push(ev);
        assert(events_view(events@) =~= before.push(evv));
        if stop || remaining == 0 {
            assert(tokens_from(data@, at, remaining as nat) == seq![evv]);
            assert(events_view(events@) =~= before + seq![evv]);
            break;
        }
        assert(tokens_from(data@, at, remaining as nat) == seq![evv] + tokens_from(data@, at + 1, (remaining - 1) as nat));
        assert(before + (seq![evv] + tokens_from(data@, at + 1, (remaining - 1) as nat)) =~= before.push(evv)
            + tokens_from(data@, at + 1, (remaining - 1) as nat));
        remaining -= 1;
    }
    parse_ttml_events(&events)
}

} // verus!
