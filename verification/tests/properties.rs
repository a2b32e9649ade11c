use rustle::engine::line_animation::{blur_level, is_line_active, latest_line_index};
use rustle::import::encoding::normalize_string;
use rustle::import::progress::ScanState;
use rustle::keybindings::{KeyCode, KeyInput};
use rustle::lyrics::ass::stringify_ass;
use rustle::lyrics::display::to_ui_lyrics;
use rustle::lyrics::lrc::parse_lrc;
use rustle::lyrics::merge::merge_translation;
use rustle::lyrics::types::{process_lyrics, LyricLineOwned, LyricWordOwned};
use rustle::lyrics::yrc::parse_yrc;
use rustle::settings::PlayMode;
use rustle::tray::{play_mode_menu, MenuEntry, TrayCommand, TrayState};

fn word(start: u64, end: u64, text: &str) -> LyricWordOwned {
    LyricWordOwned { start_time: start, end_time: end, word: text.to_string(), roman_word: String::new() }
}

fn line(words: Vec<LyricWordOwned>, start: u64, end: u64) -> LyricLineOwned {
    LyricLineOwned {
        words,
        translated_lyric: String::new(),
        roman_lyric: String::new(),
        is_bg: false,
        is_duet: false,
        start_time: start,
        end_time: end,
    }
}

#[test]
fn counting_from_a_new_scan_gives_one_to_n() {
    let mut state = ScanState::new();
    for k in 1..=5u64 {
        assert_eq!(state.increment_current(), k);
    }
    assert_eq!(state.get_stats(), (0, 5, 0, 0, 0));
}

#[test]
fn normalizing_whitespace_twice_changes_nothing() {
    let once = normalize_string("  a \t b\n");
    assert_eq!(once, "a b");
    assert_eq!(normalize_string(&once), once);
    assert_eq!(normalize_string(" \u{3000}x\u{2003}\u{2003}y z  "), "x y z");
}

#[test]
fn key_labels_differ() {
    let keys = [
        KeyCode::A, KeyCode::Z, KeyCode::Key7, KeyCode::F1, KeyCode::F10, KeyCode::F12, KeyCode::Up,
        KeyCode::End, KeyCode::Escape, KeyCode::Tab, KeyCode::Home, KeyCode::VolumeUp, KeyCode::VolumeDown,
        KeyCode::VolumeMute, KeyCode::Space, KeyCode::Enter, KeyCode::PageUp, KeyCode::Delete,
        KeyCode::MediaPlayPause, KeyCode::MediaNext, KeyCode::MediaPrev, KeyCode::PageDown, KeyCode::Backspace,
    ];
    for (i, a) in keys.iter().enumerate() {
        for b in keys.iter().skip(i + 1) {
            assert_ne!(a.display(), b.display());
        }
    }
    assert_eq!(KeyCode::Escape.display(), "Esc");
    assert_eq!(KeyCode::VolumeDown.display(), "Vol-");
}

#[test]
fn ass_rows_follow_the_input_order() {
    let mut first = line(vec![word(1000, 2000, "one")], 1000, 2000);
    first.translated_lyric = "eins".to_string();
    let second = line(vec![word(3000, 4000, "two")], 3000, 4000);
    let untimed = line(vec![word(0, 0, "none")], 0, 0);
    let text = stringify_ass(&[first, untimed, second]);
    let one = text.find("one").unwrap();
    let eins = text.find("eins").unwrap();
    let two = text.find("two").unwrap();
    assert!(one < eins && eins < two);
    assert!(!text.contains("none"));
}

#[test]
fn display_conversion_keeps_times_and_flags() {
    let mut a = line(vec![word(1000, 1500, "a"), word(1500, 2000, "b")], 1000, 2000);
    a.translated_lyric = "t".to_string();
    a.is_duet = true;
    let b = line(vec![word(5000, 6000, "c")], 5000, 6000);
    let ui = to_ui_lyrics(vec![a, b]);
    assert_eq!(ui.len(), 2);
    assert_eq!(ui[0].text, "ab");
    assert_eq!(ui[0].words.len(), 2);
    assert_eq!(ui[0].translated.as_deref(), Some("t"));
    assert!(ui[0].is_duet);
    assert_eq!(ui[1].translated, None);
    assert!(!ui[1].is_duet);
    assert!(ui[0].start_ms <= ui[0].words[0].start_ms);
    assert_eq!(ui[1].end_ms, 6000);
}

#[test]
fn translation_is_taken_only_within_the_window() {
    let mut main = vec![
        line(vec![word(1000, 2000, "a")], 1000, 2000),
        line(vec![word(5000, 6000, "b")], 5000, 6000),
    ];
    let trans = vec![
        line(vec![word(1200, 1300, "near")], 1200, 1300),
        line(vec![word(5400, 5500, "far")], 5400, 5500),
    ];
    merge_translation(&mut main, &trans);
    assert_eq!(main[0].translated_lyric, "near");
    assert_eq!(main[1].translated_lyric, "");
}

#[test]
fn lrc_output_is_sorted_with_one_trimmed_word_per_line() {
    let lines = parse_lrc("[00:03.00]  later  \n[00:01.00]first\n[00:02.00]\n[99:99.99]cap");
    assert!(lines.windows(2).all(|w| w[0].start_time <= w[1].start_time));
    for l in &lines {
        assert_eq!(l.words.len(), 1);
        assert!(!l.words[0].word.is_empty());
        assert_eq!(l.words[0].word, l.words[0].word.trim());
        assert_eq!(l.start_time, l.words[0].start_time);
        assert_eq!(l.end_time, l.words[0].end_time);
        assert!(l.start_time <= l.end_time && l.end_time <= 60_039_999);
    }
}

#[test]
fn yrc_skips_stray_text() {
    let with_noise = parse_yrc("[1000,500]xx(1000,500,0)hi");
    let clean = parse_yrc("[1000,500](1000,500,0)hi");
    assert_eq!(with_noise, clean);
    assert!(parse_yrc("[1000,500]no markers here").is_empty());
}

#[test]
fn post_processing_sorts_stably_and_clamps() {
    let mut lines = vec![
        line(vec![word(2000, 2500, "b1")], 0, 0),
        line(vec![word(1000, 1500, "a")], 0, 0),
        line(vec![word(2000, 99_000_000, "b2")], 0, 0),
    ];
    process_lyrics(&mut lines);
    let texts: Vec<&str> = lines.iter().map(|l| l.words[0].word.as_str()).collect();
    assert_eq!(texts, vec!["a", "b1", "b2"]);
    assert_eq!(lines[2].end_time, 60_039_999);
    assert_eq!(lines[2].words[0].end_time, 60_039_999);
    assert_eq!(lines[0].start_time, 1000);
}

#[test]
fn blur_grows_with_distance_and_is_capped() {
    assert_eq!(blur_level(5, 5, 5, true, false), 0);
    assert_eq!(blur_level(1, 5, 5, false, true), 0);
    assert_eq!(blur_level(4, 5, 5, false, false), 3);
    assert_eq!(blur_level(6, 5, 5, false, false), 2);
    assert_eq!(blur_level(0, 9, 9, false, false), 5);
    assert_eq!(blur_level(100, 5, 7, false, false), 5);
}

#[test]
fn active_lines_follow_the_buffer() {
    assert_eq!(latest_line_index(&[], 4), 4);
    assert_eq!(latest_line_index(&[3, 7, 5], 4), 7);
    assert!(is_line_active(4, &[], 4, 4));
    assert!(!is_line_active(5, &[], 4, 4));
    assert!(is_line_active(5, &[4, 7], 4, 7));
    assert!(!is_line_active(7, &[4], 4, 7));
    assert!(is_line_active(9, &[9], 4, 9));
}

#[test]
fn tray_menu_entries_in_order() {
    let state = TrayState {
        is_playing: true,
        title: Some("Song".to_string()),
        artist: None,
        play_mode: PlayMode::LoopOne,
        ncm_song_id: None,
        is_favorited: false,
    };
    let m = state.menu_entries();
    assert_eq!(m.len(), 12);
    assert!(matches!(&m[0], MenuEntry::Info { label } if label == "♪ Song"));
    assert!(matches!(m[2], MenuEntry::Item { label: "暂停", enabled: true, command: Some(TrayCommand::PlayPause), .. }));
    assert!(matches!(m[5], MenuEntry::Item { label: "收藏", enabled: false, command: None, .. }));
    assert!(matches!(m[7], MenuEntry::PlayModes { selected: 2 }));
    assert!(matches!(m[11], MenuEntry::Item { command: Some(TrayCommand::Quit), .. }));
}

#[test]
fn play_mode_submenu_lists_the_four_modes() {
    let m = play_mode_menu();
    assert_eq!(m.label, "播放模式");
    assert_eq!(m.icon, "media-playlist-consecutive-symbolic");
    assert_eq!(
        m.options,
        vec![
            ("顺序播放", "media-playlist-consecutive-symbolic"),
            ("列表循环", "media-playlist-repeat-symbolic"),
            ("单曲循环", "media-playlist-repeat-song-symbolic"),
            ("随机播放", "media-playlist-shuffle-symbolic"),
        ]
    );
}

#[test]
fn ascii_characters_match_their_keys() {
    assert!(KeyCode::Q.matches(&KeyInput::Character("Q".to_string())));
    assert!(KeyCode::Q.matches(&KeyInput::Character("q".to_string())));
    assert!(KeyCode::Space.matches(&KeyInput::Character(" ".to_string())));
    assert!(!KeyCode::Q.matches(&KeyInput::Character("w".to_string())));
}
