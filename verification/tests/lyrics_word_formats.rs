use rustle::lyrics::eslrc::{parse_eslrc, stringify_eslrc};
use rustle::lyrics::lqe::parse_lqe;
use rustle::lyrics::lys::{parse_lys, parse_property, stringify_lys};
use rustle::lyrics::optimize::optimize_lyrics_lines;
use rustle::lyrics::qrc::{parse_qrc, parse_word, stringify_qrc};
use rustle::lyrics::types::{normalize_lyric_text, LyricLineOwned, LyricWordOwned};
use rustle::lyrics::yrc::{parse_line_time, parse_word_time, parse_yrc, stringify_yrc};

#[test]
fn test_parse_eslrc() {
    let content = "[00:10.82]Test[00:10.97] Word[00:12.62]";
    let lines = parse_eslrc(content);
    assert_eq!(lines.len(), 1);
    assert_eq!(lines[0].words.len(), 2);
    assert_eq!(lines[0].words[0].word, "Test");
    assert_eq!(lines[0].words[0].start_time, 10820);
    assert_eq!(lines[0].words[0].end_time, 10970);
    assert_eq!(lines[0].words[1].word, " Word");
}

#[test]
fn test_stringify_eslrc() {
    let content = "[00:10.82]Test[00:10.97] Word[00:12.62]";
    let lines = parse_eslrc(content);
    let output = stringify_eslrc(&lines);
    assert!(output.contains("[00:10.820]Test[00:10.970]"));
}

#[test]
fn test_parse_lqe() {
    let content = r#"
[Lyricify Quick Export]
[version:1.0]

[lyrics: format@Lyricify Syllable]
[0]Hello(1000,1000)World(2000,1000)

[translation: format@LRC]
[00:01.000]你好世界

[pronunciation: format@LRC, language@romaji]
[00:01.000]ni hao shi jie
"#;

    let lines = parse_lqe(content);
    assert_eq!(lines.len(), 1);
    assert_eq!(lines[0].translated_lyric, "你好世界");
    assert_eq!(lines[0].roman_lyric, "ni hao shi jie");
}

#[test]
fn test_parse_property() {
    assert_eq!(parse_property("[0]"), Some((3, false, false)));
    assert_eq!(parse_property("[2]"), Some((3, false, true)));
    assert_eq!(parse_property("[6]"), Some((3, true, false)));
    assert_eq!(parse_property("[8]"), Some((3, true, true)));
}

#[test]
fn test_parse_lys() {
    let content = "[0]Test(1234,567)Word(1801,400)";
    let lines = parse_lys(content);
    assert_eq!(lines.len(), 1);
    assert!(!lines[0].is_bg);
    assert!(!lines[0].is_duet);
    assert_eq!(lines[0].words.len(), 2);
    assert_eq!(lines[0].words[0].word, "Test");
    assert_eq!(lines[0].words[0].start_time, 1234);
}

#[test]
fn test_parse_lys_duet() {
    let content = "[2]Duet(0,500)Line(500,500)";
    let lines = parse_lys(content);
    assert_eq!(lines.len(), 1);
    assert!(!lines[0].is_bg);
    assert!(lines[0].is_duet);
}

#[test]
fn test_parse_lys_background() {
    let content = "[8]Background(0,500)Duet(500,500)";
    let lines = parse_lys(content);
    assert_eq!(lines.len(), 1);
    assert!(lines[0].is_bg);
    assert!(lines[0].is_duet);
}

#[test]
fn test_stringify_lys() {
    let content = "[8]Test(1234,567)";
    let lines = parse_lys(content);
    let output = stringify_lys(&lines);
    assert_eq!(output, "[8]Test(1234,567)\n");
}

#[test]
fn test_parse_word() {
    let (consumed, word) = parse_word("Hello(0,500)").unwrap();
    assert_eq!(consumed, 12);
    assert_eq!(word.word, "Hello");
    assert_eq!(word.start_time, 0);
    assert_eq!(word.end_time, 500);
}

#[test]
fn test_parse_qrc() {
    let content = "[0,2000]Hello(0,500) (500,100)World(600,500)!(1100,400)";
    let lines = parse_qrc(content);
    assert_eq!(lines.len(), 1);
    assert_eq!(lines[0].words.len(), 4);
    assert_eq!(lines[0].words[0].word, "Hello");
    assert_eq!(lines[0].words[1].word, " ");
}

#[test]
fn test_stringify_qrc() {
    let content = "[0,1000]Hello(0,500)World(500,500)";
    let lines = parse_qrc(content);
    let output = stringify_qrc(&lines);
    assert!(output.contains("[0,1000]"));
    assert!(output.contains("Hello(0,500)"));
}

#[test]
fn test_parse_line_time() {
    assert_eq!(parse_line_time("[0,1000]"), Some((8, 0, 1000)));
    assert_eq!(parse_line_time("[12345,6789]"), Some((12, 12345, 6789)));
}

#[test]
fn test_parse_word_time() {
    assert_eq!(parse_word_time("(0,500,0)"), Some((9, 0, 500)));
    assert_eq!(parse_word_time("(1234,567,0)"), Some((12, 1234, 567)));
}

#[test]
fn test_parse_yrc() {
    let content = "[0,2000](0,500,0)Hello(500,500,0) (1000,500,0)World(1500,500,0)!";
    let lines = parse_yrc(content);
    assert_eq!(lines.len(), 1);
    assert_eq!(lines[0].words.len(), 4);
    assert_eq!(lines[0].words[0].word, "Hello");
    assert_eq!(lines[0].words[0].start_time, 0);
    assert_eq!(lines[0].words[0].end_time, 500);
}

#[test]
fn test_stringify_yrc() {
    let content = "[0,1000](0,500,0)Hello(500,500,0)World";
    let lines = parse_yrc(content);
    let output = stringify_yrc(&lines);
    assert!(output.contains("[0,1000]"));
    assert!(output.contains("(0,500,0)Hello"));
}

fn make_word(start_time: u64, end_time: u64, word: &str) -> LyricWordOwned {
    LyricWordOwned {
        start_time,
        end_time,
        word: word.to_string(),
        roman_word: String::new(),
    }
}

#[test]
fn optimize_syncs_main_and_background_ranges() {
    let mut lines = vec![
        LyricLineOwned {
            words: vec![make_word(1_000, 2_000, "main")],
            start_time: 1_000,
            end_time: 2_000,
            ..Default::default()
        },
        LyricLineOwned {
            words: vec![make_word(900, 2_200, "bg")],
            start_time: 900,
            end_time: 2_200,
            is_bg: true,
            ..Default::default()
        },
    ];

    optimize_lyrics_lines(&mut lines);

    assert_eq!(lines[0].start_time, 300);
    assert_eq!(lines[0].end_time, 2_200);
    assert_eq!(lines[1].start_time, 300);
    assert_eq!(lines[1].end_time, 2_200);
}

#[test]
fn normalize_lyric_text_replaces_smart_apostrophes() {
    assert_eq!(normalize_lyric_text("I’m fine, don’t worry"), "I'm fine, don't worry");
}
