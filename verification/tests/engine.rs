use rustle::engine::conversion::{
    convert_from_db_lyrics, convert_words, line_duration_ms, line_has_emphasis, process_lyrics_amll_style, LineData,
};
use rustle::engine::hot_lines::LineTracker;
use rustle::engine::interlude::find_interlude_gap;
use rustle::engine::text_shaper::split_cjk_to_words;
use rustle::engine::word_splitter::{chunk_and_split_words, process_words_with_chunking, resplit_words, WordChunk, WordSpan};
use rustle::lyrics::display::{LyricLine, LyricWord};

fn make_word(text: &str, start: u64, end: u64) -> WordSpan {
    WordSpan {
        text: text.to_string(),
        start_ms: start,
        end_ms: end,
        roman_word: None,
        emphasize: false,
        is_last_word: false,
    }
}

fn line(start: u64, end: u64, is_bg: bool, words: Vec<WordSpan>) -> LineData {
    LineData {
        text: String::new(),
        words,
        translated: None,
        romanized: None,
        start_ms: start,
        end_ms: end,
        is_duet: false,
        is_bg,
    }
}

#[test]
fn test_resplit_words() {
    let words = vec![make_word("Hello", 0, 500), make_word(" world test", 500, 1500)];

    let result = resplit_words(&words);

    // "Hello" stays as-is
    // " world test" becomes " ", "world", " ", "test"
    assert!(result.len() >= 4);
    assert_eq!(result[0].text, "Hello");
}

#[test]
fn test_chunk_simple() {
    let words = vec![make_word("Life", 0, 500), make_word(" ", 500, 500), make_word("is", 500, 1000)];

    let chunks = chunk_and_split_words(&words);

    // Should be: Single("Life"), Single(" "), Single("is")
    assert_eq!(chunks.len(), 3);
}

#[test]
fn test_chunk_group() {
    // Words without spaces between them should be grouped
    let words = vec![make_word("su", 0, 500), make_word("gar", 500, 1000)];

    let chunks = chunk_and_split_words(&words);

    // Should be grouped: Group(["su", "gar"])
    assert_eq!(chunks.len(), 1);
    match &chunks[0] {
        WordChunk::Group(g) => assert_eq!(g.len(), 2),
        _ => panic!("Expected group"),
    }
}

#[test]
fn test_cjk_breaks_group() {
    let words = vec![make_word("test", 0, 500), make_word("你好", 500, 1000), make_word("world", 1000, 1500)];

    let chunks = chunk_and_split_words(&words);

    // CJK should break grouping
    // Result: Single("test"), Single("你好"), Single("world")
    assert_eq!(chunks.len(), 3);
}

#[test]
fn resplit_interpolates_times_by_byte_position() {
    let words = vec![make_word("Hello", 0, 500), make_word(" world test", 500, 1500)];
    let result = resplit_words(&words);
    let got: Vec<(&str, u64, u64)> = result.iter().map(|w| (w.text.as_str(), w.start_ms, w.end_ms)).collect();
    assert_eq!(
        got,
        vec![("Hello", 0, 500), (" ", 0, 0), ("world", 500, 1055), (" ", 0, 0), ("test", 1055, 1500)]
    );
}

#[test]
fn chunking_of_the_documented_example() {
    let words = vec![
        make_word("Life", 0, 100),
        make_word(" ", 100, 100),
        make_word("is", 100, 200),
        make_word(" a", 200, 300),
        make_word(" su", 300, 400),
        make_word("gar so", 400, 500),
        make_word("sweet", 500, 600),
    ];
    let chunks = chunk_and_split_words(&words);
    let shape: Vec<Vec<String>> = chunks
        .iter()
        .map(|c| match c {
            WordChunk::Single(w) => vec![w.text.clone()],
            WordChunk::Group(g) => g.iter().map(|w| w.text.clone()).collect(),
        })
        .collect();
    let expected: Vec<Vec<&str>> = vec![
        vec!["Life"],
        vec![" "],
        vec!["is"],
        vec![" a"],
        vec![" su", "gar"],
        vec![" "],
        vec!["so", "sweet"],
    ];
    let expected: Vec<Vec<String>> =
        expected.iter().map(|v| v.iter().map(|s| s.to_string()).collect()).collect();
    assert_eq!(shape, expected);
}

#[test]
fn group_shares_the_emphasis_of_the_merged_word() {
    let mut words = vec![make_word("su", 0, 500), make_word("gar", 500, 1600)];
    let chunks = chunk_and_split_words(&words);
    assert_eq!(chunks[0].char_count(), 5);
    assert!(chunks[0].should_emphasize());
    let merged = chunks[0].merged_word();
    assert_eq!((merged.text.as_str(), merged.start_ms, merged.end_ms), ("sugar", 0, 1600));
    process_words_with_chunking(&mut words);
    assert!(words[0].emphasize && words[1].emphasize);
}

#[test]
fn short_words_are_not_emphasized() {
    let mut words = vec![make_word("a", 0, 2000), make_word(" ", 2000, 2000), make_word("long", 2000, 2500)];
    process_words_with_chunking(&mut words);
    assert!(!words[0].emphasize);
    assert!(!words[2].emphasize);
}

#[test]
fn cjk_text_is_split_into_timed_characters() {
    let words = split_cjk_to_words("你好吗", 1000, 2000);
    let got: Vec<(&str, u64, u64, bool)> =
        words.iter().map(|w| (w.text.as_str(), w.start_ms, w.end_ms, w.is_last_word)).collect();
    assert_eq!(got, vec![("你", 1000, 1333, false), ("好", 1333, 1666, false), ("吗", 1666, 2000, true)]);
    assert!(split_cjk_to_words("", 0, 10).is_empty());
}

#[test]
fn converted_words_take_chunk_emphasis_and_mark_the_last_word() {
    let old = vec![
        LyricWord { start_ms: 0, end_ms: 1500, word: "Hello".to_string() },
        LyricWord { start_ms: 1500, end_ms: 1500, word: " ".to_string() },
        LyricWord { start_ms: 1500, end_ms: 1600, word: "world".to_string() },
    ];
    let words = convert_words(&old);
    let got: Vec<(bool, bool)> = words.iter().map(|w| (w.emphasize, w.is_last_word)).collect();
    assert_eq!(got, vec![(true, false), (false, false), (false, true)]);
}

#[test]
fn db_lines_keep_the_background_flag() {
    let lines = vec![LyricLine {
        start_ms: 10,
        end_ms: 20,
        text: "x".to_string(),
        words: vec![],
        translated: Some("t".to_string()),
        romanized: Some("r".to_string()),
        is_background: true,
        is_duet: true,
    }];
    let out = convert_from_db_lyrics(&lines);
    assert_eq!(out.len(), 1);
    assert!(out[0].is_bg);
    assert!(!out[0].is_duet);
    assert_eq!(out[0].translated.as_deref(), Some("t"));
    assert_eq!(out[0].romanized, None);
}

#[test]
fn lines_start_early_and_background_lines_take_the_main_span() {
    let mut lines = vec![
        line(500, 2000, false, vec![]),
        line(2500, 4000, false, vec![]),
        line(
            2600,
            3900,
            true,
            vec![make_word("ooh", 2600, 3000), make_word(" ", 0, 0), make_word("ah", 3000, 4200)],
        ),
    ];
    process_lyrics_amll_style(&mut lines);
    let got: Vec<(u64, u64)> = lines.iter().map(|l| (l.start_ms, l.end_ms)).collect();
    assert_eq!(got, vec![(0, 2000), (2000, 4000), (2000, 4200)]);
}

#[test]
fn line_duration_and_emphasis() {
    let l = line(1000, 2500, false, vec![make_word("hello", 0, 1500)]);
    assert_eq!(line_duration_ms(&l), 1500);
    assert!(line_has_emphasis(&l));
    let backwards = line(3000, 2000, false, vec![make_word("hi", 0, 10)]);
    assert_eq!(line_duration_ms(&backwards), 0);
    assert!(!line_has_emphasis(&backwards));
}

fn sorted(mut v: Vec<usize>) -> Vec<usize> {
    v.sort();
    v
}

#[test]
fn hot_lines_follow_playback() {
    let lines = vec![line(1000, 3000, false, vec![]), line(3000, 5000, false, vec![])];
    let mut t = LineTracker::new();
    assert!(!t.update_hot_lines(500, &lines, false));
    assert_eq!(t.scroll_to_index(), 0);
    assert!(t.update_hot_lines(1500, &lines, false));
    assert_eq!(sorted(t.buffered_lines()), vec![0]);
    assert!(t.update_hot_lines(3500, &lines, false));
    assert_eq!(sorted(t.buffered_lines()), vec![1]);
    assert_eq!(t.scroll_to_index(), 1);
    assert!(t.update_hot_lines(6000, &lines, false));
    assert!(t.buffered_lines().is_empty());
    assert_eq!(t.scroll_to_index(), 1);
}

#[test]
fn buffered_lines_are_released_together() {
    let lines = vec![line(1000, 3000, false, vec![]), line(2000, 4000, false, vec![])];
    let mut t = LineTracker::new();
    t.update_hot_lines(1500, &lines, false);
    assert!(t.update_hot_lines(2500, &lines, false));
    assert_eq!(sorted(t.buffered_lines()), vec![0, 1]);
    assert_eq!(t.scroll_to_index(), 0);
    // the first line ends, but the second still plays: nothing is released
    assert!(!t.update_hot_lines(3500, &lines, false));
    assert_eq!(sorted(t.buffered_lines()), vec![0, 1]);
    // both are done
    assert!(t.update_hot_lines(4500, &lines, false));
    assert!(t.buffered_lines().is_empty());
    assert_eq!(t.scroll_to_index(), 1);
}

#[test]
fn seek_syncs_buffered_lines_with_hot_lines() {
    let lines = vec![line(1000, 3000, false, vec![]), line(5000, 7000, false, vec![])];
    let mut t = LineTracker::new();
    t.update_hot_lines(1500, &lines, false);
    assert!(t.update_hot_lines(5500, &lines, true));
    assert_eq!(sorted(t.buffered_lines()), vec![1]);
    assert_eq!(t.scroll_to_index(), 0);
    t.reset_for_new_lyrics();
    assert!(t.buffered_lines().is_empty());
    assert_eq!(t.scroll_to_index(), 0);
}

#[test]
fn background_line_is_hot_with_its_main_line() {
    let lines = vec![line(1000, 3000, false, vec![]), line(1200, 3500, true, vec![]), line(4000, 5000, false, vec![])];
    let mut t = LineTracker::new();
    t.update_hot_lines(1500, &lines, false);
    assert_eq!(sorted(t.buffered_lines()), vec![0, 1]);
    // the pair lasts until the background line ends
    assert!(!t.update_hot_lines(3200, &lines, false));
    assert_eq!(sorted(t.buffered_lines()), vec![0, 1]);
    assert!(t.update_hot_lines(3600, &lines, false));
    assert!(t.buffered_lines().is_empty());
    assert_eq!(t.scroll_to_index(), 2);
    assert_eq!(t.find_next_line_index(3600, &lines), 2);
}

#[test]
fn interlude_between_lines_and_before_the_first() {
    let lines = vec![line(1000, 2000, false, vec![]), line(10000, 12000, false, vec![])];
    assert_eq!(find_interlude_gap(&lines, 1, 5000, 4000), Some((2000, 9750, 0)));
    assert_eq!(find_interlude_gap(&lines, 1, 11000, 4000), None);
    let first = vec![line(6000, 8000, false, vec![])];
    assert_eq!(find_interlude_gap(&first, 0, 1000, 4000), Some((0, 5750, -1)));
    assert_eq!(find_interlude_gap(&first, 0, 1000, 6000), None);
}
