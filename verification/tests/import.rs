use rustle::import::cover::CoverCache;
use rustle::import::encoding::{contains_cjk, decode_string};
use rustle::import::is_audio_file;
use rustle::import::metadata::parse_filename;

#[test]
fn test_utf8_passthrough() {
    let input = "Hello World 你好世界";
    assert_eq!(decode_string(input.as_bytes()), input);
}

#[test]
fn test_gbk_decode() {
    // "周杰伦" in GBK encoding
    let gbk_bytes: &[u8] = &[0xD6, 0xDC, 0xBD, 0xDC, 0xC2, 0xD7];
    let decoded = decode_string(gbk_bytes);
    assert_eq!(decoded, "周杰伦");
}

#[test]
fn test_contains_cjk() {
    assert!(contains_cjk("周杰伦"));
    assert!(contains_cjk("こんにちは"));
    assert!(contains_cjk("안녕하세요"));
    assert!(!contains_cjk("Hello World"));
}

#[test]
fn test_parse_filename_artist_title() {
    let (artist, title) = parse_filename("周杰伦 - 七里香.mp3");
    assert_eq!(artist, Some("周杰伦".to_string()));
    assert_eq!(title, Some("七里香".to_string()));
}

#[test]
fn test_parse_filename_track_number() {
    let (artist, title) = parse_filename("01 - 七里香.mp3");
    assert_eq!(artist, None);
    assert_eq!(title, Some("七里香".to_string()));
}

#[test]
fn test_parse_filename_simple() {
    let (artist, title) = parse_filename("七里香.mp3");
    assert_eq!(artist, None);
    assert_eq!(title, Some("七里香".to_string()));
}

#[test]
fn test_parse_filename_numbered() {
    let (artist, title) = parse_filename("01. 七里香.mp3");
    assert_eq!(artist, None);
    assert_eq!(title, Some("七里香".to_string()));
}

#[test]
fn test_hash_consistency() {
    let data = b"test cover data";
    let hash1 = CoverCache::hash_cover(data);
    let hash2 = CoverCache::hash_cover(data);
    assert_eq!(hash1, hash2);
}

#[test]
fn test_hash_uniqueness() {
    let data1 = b"test cover data 1";
    let data2 = b"test cover data 2";
    let hash1 = CoverCache::hash_cover(data1);
    let hash2 = CoverCache::hash_cover(data2);
    assert_ne!(hash1, hash2);
}

#[test]
fn test_is_audio_file_filter() {
    assert!(is_audio_file("song.mp3"));
    assert!(is_audio_file("song.FLAC"));
    assert!(!is_audio_file("image.jpg"));
    assert!(!is_audio_file("document.txt"));
}
