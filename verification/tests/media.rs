use rustle::media::{cover_filenames, lyrics_extensions};

#[test]
fn test_cover_filenames_priority() {
    // cover.jpg should be found before folder.jpg
    assert_eq!(cover_filenames()[0], "cover");
    assert_eq!(cover_filenames()[1], "folder");
}

#[test]
fn test_lyrics_extensions() {
    assert!(lyrics_extensions().contains(&"lrc"));
    assert!(lyrics_extensions().contains(&"lqe"));
    assert!(lyrics_extensions().contains(&"yrc"));
    assert!(lyrics_extensions().contains(&"ttml"));
}

use rustle::media::{first_existing, lyrics_from_file};

#[test]
fn test_find_lyrics_merges_local_tlrc_sidecar() {
    let lines = lyrics_from_file(
        "[00:01.000]Hello\n[00:03.000]World\n",
        Some("[00:01.000]你好\n[00:03.000]世界\n".to_string()),
    )
    .unwrap();

    assert_eq!(lines.len(), 2);
    assert_eq!(lines[0].translated_lyric, "你好");
    assert_eq!(lines[1].translated_lyric, "世界");
}

#[test]
fn test_find_lyrics_merges_tlrc_even_when_some_inline_translations_exist() {
    let lines = lyrics_from_file(
        "[00:01.000]Hello\n[00:01.000]你好\n[00:03.000]World\n",
        Some("[00:03.000]世界\n".to_string()),
    )
    .unwrap();

    assert_eq!(lines.len(), 2);
    assert_eq!(lines[0].translated_lyric, "你好");
    assert_eq!(lines[1].translated_lyric, "世界");
}

#[test]
fn test_find_lyrics_preserves_inline_translation_when_tlrc_also_exists() {
    let lines = lyrics_from_file(
        "[00:01.000]Hello\n[00:01.000]你好\n[00:03.000]World\n",
        Some("[00:01.000]覆盖我\n[00:03.000]世界\n".to_string()),
    )
    .unwrap();

    assert_eq!(lines.len(), 2);
    assert_eq!(lines[0].translated_lyric, "你好");
    assert_eq!(lines[1].translated_lyric, "世界");
}

#[test]
fn test_find_lyrics_merges_user_sample_tlrc_with_metadata_and_blank_lines() {
    let lines = lyrics_from_file(
        "[00:00.00] 作词 : Dept/Kelsey Kuan/Sonny Zero/clam\n\
[00:00.16] 作曲 : Dept/Griffy/Kelsey Kuan/clam\n\
[00:00.33]\n\
[00:13.26]Autumn wind feels colder now\n\
[00:15.93]Ever since you're not around\n\
[00:18.70]I'm watching leaves fall on the ground\n\
[00:21.37]And rot away alone\n",
        Some(
            "[by:七月葡萄酸]\n\
[00:00.33]\n\
[00:13.26]秋天的风好像更冷了些\n\
[00:15.93]尤其当你离开之后\n\
[00:18.70]我静静地看树叶落下\n\
[00:21.37]孤单地腐烂\n\
[00:24.02]当风起时\n\
[00:25.75]落叶成堆\n"
                .to_string(),
        ),
    )
    .unwrap();

    assert_eq!(lines.len(), 6);
    assert_eq!(lines[2].translated_lyric, "秋天的风好像更冷了些");
    assert_eq!(lines[3].translated_lyric, "尤其当你离开之后");
    assert_eq!(lines[4].translated_lyric, "我静静地看树叶落下");
    assert_eq!(lines[5].translated_lyric, "孤单地腐烂");
}

#[test]
fn lyrics_file_without_lines_gives_none() {
    assert!(lyrics_from_file("", Some("[00:01.000]x\n".to_string())).is_none());
}

#[test]
fn first_present_candidate_is_chosen() {
    let c = vec!["a.jpg".to_string(), "b.jpg".to_string(), "c.jpg".to_string()];
    assert_eq!(first_existing(&c, &vec![false, true, true]), Some("b.jpg".to_string()));
    assert_eq!(first_existing(&c, &vec![false, false, false]), None);
    assert_eq!(first_existing(&c, &vec![false]), None);
}
