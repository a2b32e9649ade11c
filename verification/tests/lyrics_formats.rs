use rustle::lyrics::ass::stringify_ass;
use rustle::lyrics::eslrc::eslrc_parsable;
use rustle::lyrics::ttml::parse_ttml;
use rustle::lyrics::types::{LyricLineOwned, LyricWordOwned, LyricsFormat};
use rustle::lyrics::{can_parse_lyrics, parse_lyrics_with_format};
use rustle::media::{lyrics_from_embedded, to_ui_lyric_lines};

fn word(text: &str, start: u64, end: u64) -> LyricWordOwned {
    LyricWordOwned { start_time: start, end_time: end, word: text.to_string(), roman_word: String::new() }
}

fn line(words: Vec<LyricWordOwned>, translated: &str, start: u64, end: u64) -> LyricLineOwned {
    LyricLineOwned {
        words,
        translated_lyric: translated.to_string(),
        roman_lyric: String::new(),
        is_bg: false,
        is_duet: false,
        start_time: start,
        end_time: end,
    }
}

#[test]
fn ttml_lines_words_translation_and_background() {
    let doc = "<tt><head><metadata><ttm:agent type=\"person\" xml:id=\"v1\"/>\
        <amll:meta key=\"musicName\" value=\"Song\"/></metadata></head>\
        <body><div><p begin=\"00:01.000\" end=\"00:03.000\" ttm:agent=\"v1\">\
        <span begin=\"00:01.000\" end=\"00:02.000\">Hello</span>\
        <span begin=\"00:02.000\" end=\"00:03.000\">World</span>\
        <span ttm:role=\"x-translation\">你好世界</span>\
        <span ttm:role=\"x-bg\" begin=\"00:02.500\" end=\"00:03.500\">\
        <span begin=\"00:02.500\" end=\"00:03.500\">(ooh)</span></span>\
        </p></div></body></tt>";
    let parsed = parse_ttml(doc).unwrap();
    assert_eq!(parsed.metadata, vec![("musicName".to_string(), vec!["Song".to_string()])]);
    assert_eq!(parsed.lines.len(), 2);
    let main = &parsed.lines[0];
    assert_eq!(main.words, vec![word("Hello", 1000, 2000), word("World", 2000, 3000)]);
    assert_eq!(main.translated_lyric, "你好世界");
    assert_eq!((main.start_time, main.end_time, main.is_bg, main.is_duet), (1000, 3000, false, false));
    let bg = &parsed.lines[1];
    assert_eq!(bg.words, vec![word("ooh", 2500, 3500)]);
    assert_eq!((bg.start_time, bg.end_time, bg.is_bg), (2500, 3500, true));
}

#[test]
fn ttml_duet_line_and_second_timestamps() {
    let doc = "<tt><head><metadata><ttm:agent type=\"person\" xml:id=\"v1\"/></metadata></head>\
        <body><div><p ttm:agent=\"v2\"><span begin=\"1.5\" end=\"2s\">Rock and Roll</span></p></div></body></tt>";
    let parsed = parse_ttml(doc).unwrap();
    assert_eq!(parsed.lines.len(), 1);
    assert!(parsed.lines[0].is_duet);
    assert_eq!(parsed.lines[0].words, vec![word("Rock and Roll", 1500, 2000)]);
    assert_eq!((parsed.lines[0].start_time, parsed.lines[0].end_time), (1500, 2000));
}

#[test]
fn ttml_with_broken_xml_is_an_error() {
    assert!(parse_ttml("<tt><body></div></tt>").is_err());
}

#[test]
fn ass_dialogue_with_karaoke_tags_and_translation() {
    let lines = vec![line(vec![word("Hello", 1000, 1500), word("World", 1500, 2000)], "你好", 1000, 2000)];
    let expected = "[Script Info]\n[Events]\n\
        Format: Marked, Start, End, Style, Name, MarginL, MarginR, MarginV, Effect, Text\n\
        Dialogue: 0,0:00:01.00,0:00:02.00,Default,v1,0,0,0,,{\\k50}Hello{\\k50}World\n\
        Dialogue: 0,0:00:01.00,0:00:02.00,Default,v1-trans,0,0,0,,你好\n";
    assert_eq!(stringify_ass(&lines), expected);
}

#[test]
fn ass_skips_lines_without_timed_words() {
    let lines = vec![line(vec![word("x", 5, 5)], "", 0, 0)];
    assert_eq!(
        stringify_ass(&lines),
        "[Script Info]\n[Events]\nFormat: Marked, Start, End, Style, Name, MarginL, MarginR, MarginV, Effect, Text\n"
    );
}

#[test]
fn eslrc_parsability_and_format_dispatch() {
    assert!(eslrc_parsable("[00:01.00]Hello[00:02.00]"));
    assert!(can_parse_lyrics("[00:01.00]Hello\n"));
    let lines = parse_lyrics_with_format("[00:01.00]Hello\n[00:02.50]World\n", LyricsFormat::Lrc);
    assert_eq!(lines.len(), 2);
    assert_eq!(lines[1].start_time, 2500);
}

#[test]
fn embedded_plain_text_becomes_one_untimed_line() {
    let lines = lyrics_from_embedded("just some words".to_string()).unwrap();
    assert_eq!(lines.len(), 1);
    assert_eq!(lines[0].words, vec![word("just some words", 0, u64::MAX)]);
    assert_eq!((lines[0].start_time, lines[0].end_time), (0, u64::MAX));
    assert!(lyrics_from_embedded("   ".to_string()).is_none());
    let timed = lyrics_from_embedded("[00:01.00]Hi\n".to_string()).unwrap();
    assert_eq!(timed[0].start_time, 1000);
}

#[test]
fn displayed_lines_join_their_words() {
    let ui = to_ui_lyric_lines(vec![line(vec![word("Hel", 100, 200), word("lo", 200, 300)], "t", 100, 300)]);
    assert_eq!(ui.len(), 1);
    assert_eq!(ui[0].text, "Hello");
    assert_eq!(ui[0].words.len(), 2);
    assert_eq!(ui[0].translated.as_deref(), Some("t"));
}

use rustle::lyrics::online::{cache_file_name, lyrics_from_cache, lyrics_from_fetched};

#[test]
fn online_cache_names() {
    assert_eq!(cache_file_name(123, ".yrc"), "123.yrc");
    assert_eq!(cache_file_name(0, ".tlrc"), "0.tlrc");
}

#[test]
fn cached_yrc_comes_before_lrc_and_takes_the_translation() {
    let yrc = "[0,2000](0,500,0)Hello(500,500,0) (1000,500,0)World".to_string();
    let lrc = "[00:05.00]Other\n".to_string();
    let tlrc = "[00:00.00]你好世界\n".to_string();
    let lines = lyrics_from_cache(Some(yrc), Some(lrc.clone()), Some(tlrc.clone())).unwrap();
    assert_eq!(lines.len(), 1);
    assert_eq!(lines[0].words[0].word, "Hello");
    assert_eq!(lines[0].translated_lyric, "你好世界");
    // a YRC file without lines falls back to the LRC file
    let lines = lyrics_from_cache(Some(String::new()), Some(lrc), None).unwrap();
    assert_eq!(lines[0].start_time, 5000);
    assert!(lyrics_from_cache(None, None, Some(tlrc)).is_none());
}

#[test]
fn fetched_lyrics_are_parsed_and_marked_word_timed() {
    let (lines, is_yrc) = lyrics_from_fetched("[0,1000](0,500,0)Hi", Some("[00:00.00]嗨\n".to_string()));
    assert!(is_yrc);
    assert_eq!(lines.len(), 1);
    assert_eq!(lines[0].translated_lyric, "嗨");
    let (lines, is_yrc) = lyrics_from_fetched("[00:01.00]Hi\n", None);
    assert!(!is_yrc);
    assert_eq!(lines[0].start_time, 1000);
}
