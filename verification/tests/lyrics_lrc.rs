use rustle::lyrics::lrc::{parse_line, parse_lrc, parse_time, stringify_lrc};

#[test]
fn test_parse_time() {
    assert_eq!(parse_time("[00:01.12]"), Some((10, 1120)));
    assert_eq!(parse_time("[00:10.254]"), Some((11, 10254)));
    assert_eq!(parse_time("[01:10.1]"), Some((9, 70100)));
    assert_eq!(parse_time("[00:00.00]"), Some((10, 0)));
    assert_eq!(parse_time("[1:2:3.123]"), Some((11, 3723123)));
    assert_eq!(parse_time("[00:14:91]"), Some((10, 14910)));
    assert_eq!(parse_time("[00:02:31]"), Some((10, 2310)));
}

#[test]
fn test_parse_line() {
    let lines = parse_line("[00:01.12] test LyRiC");
    assert_eq!(lines.len(), 1);
    assert_eq!(lines[0].start_time, 1120);
    assert_eq!(lines[0].words[0].word, "test LyRiC");
}

#[test]
fn test_parse_lrc_colon_fraction_keeps_credit_lines_short() {
    let lines = parse_lrc(
        "[00:00.00] 作词 : z²\n\
[00:01.00] 作曲 : z²/yume.\n\
[00:02:31]♪\n\
[00:14:91]「死ぬまで一緒だから」\n",
    );

    assert_eq!(lines.len(), 4);
    assert_eq!(lines[0].start_time, 0);
    assert_eq!(lines[0].end_time, 1000);
    assert_eq!(lines[1].start_time, 1000);
    assert_eq!(lines[1].end_time, 2310);
    assert_eq!(lines[2].start_time, 2310);
    assert_eq!(lines[2].end_time, 14910);
    assert_eq!(lines[3].start_time, 14910);
}

#[test]
fn test_parse_multiple_timestamps() {
    let lines = parse_line("[00:12.50][01:30.00]Repeated line");
    assert_eq!(lines.len(), 2);
    assert_eq!(lines[0].start_time, 12500);
    assert_eq!(lines[1].start_time, 90000);
}

#[test]
fn lrc_test_parse_lrc() {
    let content = "[ti:Test Song]\n[ar:Test Artist]\n[00:00.00]First line\n[00:05.00]Second line\n[00:10.00]Third line";
    let lines = parse_lrc(content);
    assert_eq!(lines.len(), 3);
    assert_eq!(lines[0].words[0].word, "First line");
    assert_eq!(lines[1].words[0].word, "Second line");
    assert_eq!(lines[2].words[0].word, "Third line");
}

#[test]
fn test_parse_background_lines() {
    let lines = parse_lrc("[00:01.120](Hello)\n[00:03.000]（Hi）\n[00:05.000]World");
    assert_eq!(lines.len(), 3);
    assert!(lines[0].is_bg);
    assert_eq!(lines[0].words[0].word, "Hello");
    assert!(lines[1].is_bg);
    assert_eq!(lines[1].words[0].word, "Hi");
    assert!(!lines[2].is_bg);
}

#[test]
fn test_empty_lines_are_filtered_but_preserve_end_times() {
    let lines = parse_lrc(
        "[00:00.000]\n[00:01.000]   \n[00:01.120] Hello   \n[00:02.333]\n[00:03.000] World \n[00:05.000]   \n",
    );
    assert_eq!(lines.len(), 2);
    assert_eq!(lines[0].words[0].word, "Hello");
    assert_eq!(lines[0].end_time, 2333);
    assert_eq!(lines[0].words[0].end_time, 2333);
    assert_eq!(lines[1].words[0].word, "World");
    assert_eq!(lines[1].end_time, 5000);
}

#[test]
fn test_same_timestamp_lines_become_translation() {
    let lines = parse_lrc("[00:01.000]Hello\n[00:01.000]你好\n[00:03.000]World");
    assert_eq!(lines.len(), 2);
    assert_eq!(lines[0].words[0].word, "Hello");
    assert_eq!(lines[0].translated_lyric, "你好");
    assert_eq!(lines[0].end_time, 3000);
    assert_eq!(lines[1].words[0].word, "World");
}

#[test]
fn test_third_same_timestamp_line_becomes_romanization() {
    let lines = parse_lrc("[00:01.000]Hello\n[00:01.000]你好\n[00:01.000]ni hao\n[00:03.000]World");
    assert_eq!(lines.len(), 2);
    assert_eq!(lines[0].translated_lyric, "你好");
    assert_eq!(lines[0].roman_lyric, "ni hao");
}

#[test]
fn test_same_timestamp_preserves_source_order() {
    let lines = parse_lrc("[00:01.000]你好\n[00:01.000]Hello\n[00:03.000]World");
    assert_eq!(lines.len(), 2);
    assert_eq!(lines[0].words[0].word, "你好");
    assert_eq!(lines[0].translated_lyric, "Hello");
}

#[test]
fn test_same_timestamp_same_script_lines_stay_separate() {
    let lines = parse_lrc("[00:01.000]Hello\n[00:01.000]World\n[00:03.000]After");
    assert_eq!(lines.len(), 3);
    assert!(lines[0].translated_lyric.is_empty());
    assert!(lines[1].translated_lyric.is_empty());
    assert_eq!(lines[0].end_time, 3000);
    assert_eq!(lines[1].end_time, 3000);
}

#[test]
fn test_same_timestamp_background_lines_merge_translation() {
    let lines = parse_lrc("[00:01.000](Hello)\n[00:01.000](你好)\n[00:03.000]After");
    assert_eq!(lines.len(), 2);
    assert!(lines[0].is_bg);
    assert_eq!(lines[0].words[0].word, "Hello");
    assert_eq!(lines[0].translated_lyric, "你好");
    assert_eq!(lines[0].end_time, 3000);
}

#[test]
fn test_same_timestamp_mixed_main_and_background_stay_separate() {
    let lines = parse_lrc("[00:01.000]Hello\n[00:01.000](你好)\n[00:03.000]After");
    assert_eq!(lines.len(), 3);
    assert!(!lines[0].is_bg);
    assert!(lines[1].is_bg);
    assert!(lines[0].translated_lyric.is_empty());
    assert!(lines[1].translated_lyric.is_empty());
}

#[test]
fn test_mixed_parentheses_are_background_lines() {
    let lines = parse_lrc("[00:01.000](Hello）\n[00:02.000]（World)");
    assert_eq!(lines.len(), 2);
    assert!(lines[0].is_bg);
    assert!(lines[1].is_bg);
    assert_eq!(lines[0].words[0].word, "Hello");
    assert_eq!(lines[1].words[0].word, "World");
}

#[test]
fn test_stringify_lrc() {
    let lines = parse_lrc("[00:01.12] test LyRiC\n[00:10.254] sssxxx");
    let output = stringify_lrc(&lines);
    assert!(output.contains("[00:01.120]"));
    assert!(output.contains("[00:10.254]"));
}

#[test]
fn test_stringify_background_lines() {
    let lines = parse_lrc("[00:01.120](Hello)\n[00:03.000]World");
    let output = stringify_lrc(&lines);
    assert!(output.contains("[00:01.120](Hello)"));
    assert!(output.contains("[00:03.000]World"));
}
