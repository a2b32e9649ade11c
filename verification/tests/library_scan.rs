use rustle::import::cover::{count_cached_covers, CoverCache};
use rustle::import::metadata::{cover_is_png, metadata_from_tags, tag_year, TagFields};
use rustle::import::progress::{ScanState, SkipReason};
use rustle::import::scan_run::{scan_step, ImportInfo, ScanEvent, ScanReport, ScanRun};
use rustle::import::scanner::{
    accepts_file, classify_metadata_error, is_known_audio_header, partial_hash, partial_hash_plan, ScanConfig,
};
use rustle::import::watcher::{process_watch_event, Debouncer, NotifyKind, PathFacts, WatchEvent};

fn facts(path: &str, is_dir: bool, is_file: bool, exists: bool) -> PathFacts {
    PathFacts { path: path.to_string(), is_dir, is_file, exists }
}

#[test]
fn scan_config_defaults_and_extension_filter() {
    let config = ScanConfig::default();
    assert!(config.compute_hash && config.extract_covers && config.smart_parsing);
    assert!(accepts_file("/music/a.FLAC", &config));
    assert!(!accepts_file("/music/a.txt", &config));
    let only_mp3 = ScanConfig { extensions: vec!["mp3".to_string()], ..ScanConfig::default() };
    assert!(accepts_file("/music/a.MP3", &only_mp3));
    assert!(!accepts_file("/music/a.flac", &only_mp3));
}

#[test]
fn audio_headers_are_recognized() {
    assert!(is_known_audio_header(b"fLaC\0\0\0\0"));
    assert!(is_known_audio_header(b"ID3\x04"));
    assert!(is_known_audio_header(&[0xFF, 0xFB, 0x90]));
    assert!(is_known_audio_header(b"OggS"));
    assert!(is_known_audio_header(b"RIFF\0\0\0\0WAVEfmt "));
    assert!(is_known_audio_header(b"\0\0\0\x20ftypM4A "));
    assert!(!is_known_audio_header(b"<html>"));
    assert!(!is_known_audio_header(b""));
}

#[test]
fn metadata_errors_are_classified() {
    assert_eq!(classify_metadata_error(true, "/a.mp3", "x".to_string()), SkipReason::Corrupted);
    assert_eq!(classify_metadata_error(false, "/a.mp3", "x".to_string()), SkipReason::NotAudioFile);
    assert_eq!(
        classify_metadata_error(false, "/a.bin", "bad".to_string()),
        SkipReason::MetadataError("bad".to_string())
    );
}

#[test]
fn partial_hash_reads_head_and_tail_of_large_files() {
    assert_eq!(partial_hash_plan(1000), (1000, false));
    assert_eq!(partial_hash_plan(100_000), (65536, false));
    assert_eq!(partial_hash_plan(200_000), (65536, true));
    let a = partial_hash(3, b"abc", None);
    assert_eq!(a.len(), 16);
    assert!(a.chars().all(|c| c.is_ascii_hexdigit() && !c.is_ascii_uppercase()));
    assert_eq!(a, partial_hash(3, b"abc", None));
    // the size takes part in the hash
    assert_ne!(a, partial_hash(4, b"abc", None));
    assert_ne!(a, partial_hash(3, b"abc", Some(b"xyz")));
    let expected = format!("{:016x}", xxhash_rust::xxh3::xxh3_64(&[3, 0, 0, 0, 0, 0, 0, 0, b'a', b'b', b'c']));
    assert_eq!(a, expected);
}

#[test]
fn cover_cache_paths_and_counts() {
    let cache = CoverCache::from_dir("/tmp/covers".to_string());
    assert_eq!(cache.cache_dir(), "/tmp/covers");
    let hash = CoverCache::hash_cover(b"image bytes");
    assert_eq!(hash, format!("{:016x}", xxhash_rust::xxh3::xxh3_64(b"image bytes")));
    assert_eq!(cache.get_cover_path(&hash), format!("/tmp/covers/{}.jpg", hash));
    let entries = vec!["/c/a.jpg".to_string(), "/c/b.png".to_string(), "/c/c.JPG".to_string(), "/c/d.jpg".to_string()];
    assert_eq!(count_cached_covers(&entries), 2);
}

#[test]
fn scan_state_counts() {
    let mut s = ScanState::new();
    s.set_total(3);
    assert_eq!(s.increment_current(), 1);
    s.increment_imported();
    s.increment_current();
    s.increment_skipped();
    s.increment_errors();
    assert_eq!(s.get_stats(), (3, 2, 1, 1, 1));
    assert!(!s.is_cancelled());
    s.cancel();
    assert!(s.is_cancelled());
    assert_eq!(s.get_scanned_paths(), None);
    s.set_scanned_paths(vec!["/a.mp3".to_string()]);
    assert_eq!(s.get_scanned_paths(), Some(vec!["/a.mp3".to_string()]));
}

#[test]
fn tag_metadata_is_built_with_fallbacks() {
    let m = metadata_from_tags(200, Some("MP3".to_string()), None, Some("Artist - Song".to_string()));
    assert_eq!(m.duration_secs, 200);
    assert_eq!(m.format, "mp3");
    assert_eq!(m.title, "Artist - Song");
    assert_eq!(m.artist, "Unknown Artist");
    let tag = TagFields {
        title: Some("  A   Title ".to_string()),
        artist: Some("Someone".to_string()),
        album: None,
        track: Some(7),
        year: Some(2001),
        genre: Some("Pop".to_string()),
        picture: Some((vec![1, 2, 3], Some("image/png".to_string()))),
    };
    let m = metadata_from_tags(10, None, Some(tag), None);
    assert_eq!(m.format, "unknown");
    assert_eq!(m.title, "A Title");
    assert_eq!(m.artist, "Someone");
    assert_eq!(m.album, "Unknown Album");
    assert_eq!(m.track_number, Some(7));
    assert_eq!(m.year, Some(2001));
    assert_eq!(m.cover_data, Some(vec![1, 2, 3]));
    assert_eq!(m.cover_mime.as_deref(), Some("image/png"));
    assert_eq!(tag_year(2024), Some(2024));
    assert_eq!(tag_year(10000), None);
    assert!(cover_is_png("image/png"));
    assert!(!cover_is_png("image/jpeg"));
}

#[test]
fn notifications_become_watch_events() {
    let created = process_watch_event(NotifyKind::Create, &vec![facts("/m/a.mp3", false, true, true)]);
    assert_eq!(created, Some(WatchEvent::FileCreated("/m/a.mp3".to_string())));
    let ignored = process_watch_event(NotifyKind::Create, &vec![facts("/m/a.txt", false, true, true)]);
    assert_eq!(ignored, None);
    let renamed = process_watch_event(
        NotifyKind::ModifyName,
        &vec![facts("/m/a.mp3", false, false, false), facts("/m/b.mp3", false, true, true)],
    );
    assert_eq!(renamed, Some(WatchEvent::FileRenamed("/m/a.mp3".to_string(), "/m/b.mp3".to_string())));
    let moved_away = process_watch_event(NotifyKind::ModifyName, &vec![facts("/m/a.mp3", false, false, false)]);
    assert_eq!(moved_away, Some(WatchEvent::FileDeleted("/m/a.mp3".to_string())));
    let accessed = process_watch_event(NotifyKind::Access, &vec![facts("/m/a.mp3", false, true, true)]);
    assert_eq!(accessed, None);
}

#[test]
fn debouncer_keeps_the_latest_event_per_path() {
    let mut d = Debouncer::new();
    assert_eq!(d.on_event(WatchEvent::FileCreated("/a.mp3".to_string()), 0), None);
    assert_eq!(d.on_event(WatchEvent::FileModified("/a.mp3".to_string()), 100), None);
    assert_eq!(d.on_event(WatchEvent::FileCreated("/b.mp3".to_string()), 400), None);
    // errors are not held back
    assert_eq!(
        d.on_event(WatchEvent::Error("boom".to_string()), 400),
        Some(WatchEvent::Error("boom".to_string()))
    );
    assert_eq!(d.on_tick(500, 500), Vec::<WatchEvent>::new());
    assert_eq!(d.on_tick(600, 500), vec![WatchEvent::FileModified("/a.mp3".to_string())]);
    assert_eq!(d.on_tick(900, 500), vec![WatchEvent::FileCreated("/b.mp3".to_string())]);
    assert_eq!(d.on_tick(5000, 500), Vec::<WatchEvent>::new());
}

#[test]
fn undecodable_bytes_fall_back_to_lossy_utf8() {
    let text = rustle::import::encoding::decode_string(&[1, 2, 3, 4, 0xFF]);
    assert_eq!(text, "\u{1}\u{2}\u{3}\u{4}\u{FFFD}");
}

#[test]
fn candidate_file_names_try_upper_case_extensions() {
    let names = rustle::media::lyrics_candidates("song");
    assert_eq!(names[0], "song.lrc");
    assert_eq!(names[1], "song.LRC");
    assert_eq!(names.len(), 12);
    assert_eq!(
        rustle::media::sidecar_candidates("a", "tlrc"),
        vec!["a.tlrc".to_string(), "a.TLRC".to_string()]
    );
    let covers = rustle::media::cover_candidates(Some("song"));
    assert_eq!(covers[0], "song.jpg");
    assert_eq!(covers[1], "song.JPG");
    assert!(covers.contains(&"Cover.png".to_string()));
    assert!(covers.contains(&"FOLDER.WEBP".to_string()));
}

fn info(path: &str, title: &str) -> ImportInfo {
    ImportInfo {
        path: path.to_string(),
        file_name: path.rsplit('/').next().unwrap().to_string(),
        title: title.to_string(),
        artist: "Artist".to_string(),
        cover_path: None,
    }
}

fn scanned(name: &str, outcome: Result<ImportInfo, SkipReason>) -> ScanEvent {
    ScanEvent::FileScanned { file_name: name.to_string(), outcome }
}

#[test]
fn empty_folder_scan_completes_at_once() {
    let mut state = ScanState::new();
    let mut run = ScanRun::new();
    let r = scan_step(&mut state, &mut run, ScanEvent::Discovered { total: 0 });
    assert_eq!(r, vec![ScanReport::Started { total_files: 0 }, ScanReport::Completed { imported: 0, skipped: 0, errors: 0 }]);
    assert_eq!(state.get_scanned_paths(), Some(Vec::new()));
}

#[test]
fn scan_counts_processed_imported_and_skipped_files() {
    let mut state = ScanState::new();
    let mut run = ScanRun::new();
    assert_eq!(scan_step(&mut state, &mut run, ScanEvent::Discovered { total: 3 }), vec![ScanReport::Started { total_files: 3 }]);
    assert!(scan_step(&mut state, &mut run, ScanEvent::BatchStarting).is_empty());
    let r = scan_step(&mut state, &mut run, scanned("a.mp3", Ok(info("/m/a.mp3", "A"))));
    assert_eq!(r, vec![ScanReport::Processing { current: 1, total: 3, file_name: "a.mp3".to_string() }]);
    let r = scan_step(&mut state, &mut run, scanned("b.txt", Err(SkipReason::NotAudioFile)));
    assert_eq!(
        r,
        vec![
            ScanReport::Processing { current: 2, total: 3, file_name: "b.txt".to_string() },
            ScanReport::Skipped { current: 2, total: 3, file_name: "b.txt".to_string(), reason: SkipReason::NotAudioFile },
        ]
    );
    scan_step(&mut state, &mut run, scanned("c.flac", Ok(info("/m/c.flac", "C"))));
    assert_eq!(run.pending.len(), 2);
    assert!(scan_step(&mut state, &mut run, ScanEvent::BatchReady).is_empty());
    let r = scan_step(&mut state, &mut run, ScanEvent::BatchStored { stored: Ok(2) });
    assert_eq!(
        r,
        vec![
            ScanReport::Imported { current: 3, total: 3, title: "A".to_string(), artist: "Artist".to_string(), cover_path: None },
            ScanReport::Imported { current: 3, total: 3, title: "C".to_string(), artist: "Artist".to_string(), cover_path: None },
        ]
    );
    assert!(run.pending.is_empty());
    assert_eq!(state.get_scanned_paths(), Some(vec!["/m/a.mp3".to_string(), "/m/c.flac".to_string()]));
    assert_eq!(scan_step(&mut state, &mut run, ScanEvent::Finished), vec![ScanReport::Completed { imported: 2, skipped: 1, errors: 0 }]);
    assert_eq!(state.get_stats(), (3, 3, 2, 1, 0));
}

#[test]
fn wrong_id_count_turns_the_batch_into_database_errors() {
    let mut state = ScanState::new();
    let mut run = ScanRun::new();
    scan_step(&mut state, &mut run, ScanEvent::Discovered { total: 2 });
    scan_step(&mut state, &mut run, scanned("a.mp3", Ok(info("/m/a.mp3", "A"))));
    scan_step(&mut state, &mut run, scanned("b.mp3", Ok(info("/m/b.mp3", "B"))));
    let r = scan_step(&mut state, &mut run, ScanEvent::BatchStored { stored: Ok(1) });
    let reason = SkipReason::DatabaseError("batch upsert returned 1 ids for 2 songs".to_string());
    assert_eq!(
        r,
        vec![
            ScanReport::Skipped { current: 2, total: 2, file_name: "a.mp3".to_string(), reason: reason.clone() },
            ScanReport::Skipped { current: 2, total: 2, file_name: "b.mp3".to_string(), reason },
        ]
    );
    assert_eq!(state.get_stats(), (2, 2, 0, 0, 2));
    assert_eq!(state.get_scanned_paths(), Some(Vec::new()));
}

#[test]
fn failed_batch_reports_the_database_error() {
    let mut state = ScanState::new();
    let mut run = ScanRun::new();
    scan_step(&mut state, &mut run, ScanEvent::Discovered { total: 1 });
    scan_step(&mut state, &mut run, scanned("a.mp3", Ok(info("/m/a.mp3", "A"))));
    let r = scan_step(&mut state, &mut run, ScanEvent::BatchStored { stored: Err("disk full".to_string()) });
    assert_eq!(
        r,
        vec![ScanReport::Skipped {
            current: 1,
            total: 1,
            file_name: "a.mp3".to_string(),
            reason: SkipReason::DatabaseError("disk full".to_string()),
        }]
    );
    assert_eq!(state.get_stats(), (1, 1, 0, 0, 1));
}

#[test]
fn cancelled_scan_reports_cancelled() {
    let mut state = ScanState::new();
    let mut run = ScanRun::new();
    scan_step(&mut state, &mut run, ScanEvent::Discovered { total: 2 });
    scan_step(&mut state, &mut run, scanned("a.mp3", Ok(info("/m/a.mp3", "A"))));
    state.cancel();
    assert_eq!(scan_step(&mut state, &mut run, scanned("b.mp3", Ok(info("/m/b.mp3", "B")))), vec![ScanReport::Cancelled]);
    assert_eq!(scan_step(&mut state, &mut run, ScanEvent::BatchReady), vec![ScanReport::Cancelled]);
    assert_eq!(scan_step(&mut state, &mut run, ScanEvent::BatchStored { stored: Ok(1) }), vec![ScanReport::Cancelled]);
    assert_eq!(scan_step(&mut state, &mut run, ScanEvent::BatchStarting), vec![ScanReport::Cancelled]);
    assert_eq!(state.get_stats(), (2, 1, 0, 0, 0));
}
