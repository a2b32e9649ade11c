use rustle::lyrics::detect::detect_format;
use rustle::lyrics::merge::merge_translation;
use rustle::lyrics::parse_lyrics;
use rustle::lyrics::types::{LyricLineOwned, LyricWordOwned, LyricsFormat};

#[test]
fn test_detect_lrc() {
    let content = "[00:01.12]First line\n[00:05.00]Second line";
    assert_eq!(detect_format(content), LyricsFormat::Lrc);
}

#[test]
fn test_detect_yrc() {
    let content = "[0,1000](0,500,0)Hello(500,500,0)World";
    assert_eq!(detect_format(content), LyricsFormat::Yrc);
}

#[test]
fn test_detect_yrc_after_ncm_metadata_lines() {
    let content = "{\"t\":0,\"c\":[{\"tx\":\"作词: \"}]}\n[0,1000](0,500,0)Hello(500,500,0)World";
    assert_eq!(detect_format(content), LyricsFormat::Yrc);
    assert_eq!(parse_lyrics(content)[0].words[0].word, "Hello");
}

#[test]
fn test_detect_yrc_after_bracket_metadata_lines() {
    let content = "[ti:Title]\n[ar:Artist]\n[0,1000](0,500,0)Hello(500,500,0)World";
    assert_eq!(detect_format(content), LyricsFormat::Yrc);
}

#[test]
fn test_detect_lqe() {
    let content = "[Lyricify Quick Export]\n[lyrics: format@Lyricify Syllable]\n[0]Hi(0,500)";
    assert_eq!(detect_format(content), LyricsFormat::Lqe);
}

#[test]
fn test_detect_parenthesized_lrc_stays_lrc() {
    let content = "[00:01.000](Se-no! Ah Ah Ah Ah)\n[00:03.000]Next";
    assert_eq!(detect_format(content), LyricsFormat::Lrc);
}

#[test]
fn test_detect_lrc_with_inline_parentheses_stays_lrc() {
    let content = "[00:01.000]Hello (world)\n[00:03.000]Next";
    assert_eq!(detect_format(content), LyricsFormat::Lrc);
}

#[test]
fn parser_test_parse_lrc() {
    let content = "[00:01.12]First line\n[00:05.00]Second line";
    let lines = parse_lyrics(content);
    assert_eq!(lines.len(), 2);
    assert_eq!(lines[0].start_time, 1120);
}

#[test]
fn test_parse_parenthesized_lrc_through_auto_detect_marks_background() {
    let content = "[00:01.000](Hello, world!）";
    let lines = parse_lyrics(content);
    assert_eq!(lines.len(), 1);
    assert!(lines[0].is_bg);
    assert_eq!(lines[0].words[0].word, "Hello, world!");
}

#[test]
fn test_merge_translation_matches_duplicate_timestamps_sequentially() {
    let mut main = vec![
        LyricLineOwned {
            start_time: 1000,
            words: vec![LyricWordOwned {
                start_time: 1000,
                end_time: 2000,
                word: "Main A".into(),
                roman_word: String::new(),
            }],
            ..Default::default()
        },
        LyricLineOwned {
            start_time: 1000,
            words: vec![LyricWordOwned {
                start_time: 1000,
                end_time: 2000,
                word: "Main B".into(),
                roman_word: String::new(),
            }],
            ..Default::default()
        },
    ];
    let translation = vec![LyricLineOwned {
        start_time: 1000,
        words: vec![LyricWordOwned {
            start_time: 1000,
            end_time: 2000,
            word: "Trans".into(),
            roman_word: String::new(),
        }],
        ..Default::default()
    }];

    merge_translation(&mut main, &translation);

    assert_eq!(main[0].translated_lyric, "Trans");
    assert!(main[1].translated_lyric.is_empty());
}

#[test]
fn test_merge_translation_preserves_existing_inline_text() {
    let mut main = vec![
        LyricLineOwned {
            start_time: 1000,
            translated_lyric: "Inline".into(),
            words: vec![LyricWordOwned {
                start_time: 1000,
                end_time: 2000,
                word: "Main A".into(),
                roman_word: String::new(),
            }],
            ..Default::default()
        },
        LyricLineOwned {
            start_time: 2000,
            words: vec![LyricWordOwned {
                start_time: 2000,
                end_time: 3000,
                word: "Main B".into(),
                roman_word: String::new(),
            }],
            ..Default::default()
        },
    ];
    let translation = vec![
        LyricLineOwned {
            start_time: 1000,
            words: vec![LyricWordOwned {
                start_time: 1000,
                end_time: 2000,
                word: "Sidecar A".into(),
                roman_word: String::new(),
            }],
            ..Default::default()
        },
        LyricLineOwned {
            start_time: 2000,
            words: vec![LyricWordOwned {
                start_time: 2000,
                end_time: 3000,
                word: "Sidecar B".into(),
                roman_word: String::new(),
            }],
            ..Default::default()
        },
    ];

    merge_translation(&mut main, &translation);

    assert_eq!(main[0].translated_lyric, "Inline");
    assert_eq!(main[1].translated_lyric, "Sidecar B");
}

fn test_line(start_time: u64, text: &str) -> LyricLineOwned {
    LyricLineOwned {
        start_time,
        words: vec![LyricWordOwned {
            start_time,
            end_time: start_time + 1000,
            word: text.into(),
            roman_word: String::new(),
        }],
        ..Default::default()
    }
}

#[test]
fn test_merge_translation_allows_timestamp_drift_and_skips_extra_lines() {
    let mut main = vec![test_line(1000, "Main A"), test_line(2000, "Main B")];
    let translation = vec![
        test_line(1200, "Trans A"),
        test_line(1500, "Extra translation"),
        test_line(2200, "Trans B"),
    ];

    merge_translation(&mut main, &translation);

    assert_eq!(main[0].translated_lyric, "Trans A");
    assert_eq!(main[1].translated_lyric, "Trans B");
}

#[test]
fn test_merge_translation_skips_main_lines_without_translation() {
    let mut main = vec![
        test_line(1000, "Main A"),
        test_line(1500, "Main without translation"),
        test_line(2000, "Main B"),
    ];
    let translation = vec![test_line(1000, "Trans A"), test_line(2000, "Trans B")];

    merge_translation(&mut main, &translation);

    assert_eq!(main[0].translated_lyric, "Trans A");
    assert!(main[1].translated_lyric.is_empty());
    assert_eq!(main[2].translated_lyric, "Trans B");
}
