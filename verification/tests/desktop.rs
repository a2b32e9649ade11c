use rustle::mpris::MprisMetadata;
use rustle::settings::PlayMode;
use rustle::tray::{play_mode_at, play_mode_index, TrayState};

#[test]
fn tray_texts_follow_the_state() {
    let mut s = TrayState::default();
    assert_eq!(s.tool_tip_description(), "Not playing");
    assert_eq!(s.now_playing_label(), "Rustle Music");
    assert_eq!(s.play_item(), ("播放", "media-playback-start-symbolic"));
    assert_eq!(s.favorite_item(), ("收藏", "non-starred-symbolic", false));
    s.is_playing = true;
    assert_eq!(s.tool_tip_description(), "Playing...");
    assert_eq!(s.play_item(), ("暂停", "media-playback-pause-symbolic"));
    s.title = Some("Song".to_string());
    assert_eq!(s.tool_tip_description(), "Song");
    assert_eq!(s.now_playing_label(), "♪ Song");
    s.artist = Some("Band".to_string());
    assert_eq!(s.tool_tip_description(), "Song - Band");
    assert_eq!(s.now_playing_label(), "♪ Song - Band");
    s.ncm_song_id = Some(42);
    assert_eq!(s.favorite_item(), ("收藏", "non-starred-symbolic", true));
    s.is_favorited = true;
    assert_eq!(s.favorite_item(), ("取消收藏", "starred-symbolic", true));
}

#[test]
fn tray_play_mode_menu_positions() {
    for m in [PlayMode::Sequential, PlayMode::LoopAll, PlayMode::LoopOne, PlayMode::Shuffle] {
        assert_eq!(play_mode_at(play_mode_index(m)), m);
    }
    assert_eq!(play_mode_index(PlayMode::LoopOne), 2);
    assert_eq!(play_mode_at(9), PlayMode::Sequential);
}

#[test]
fn mpris_track_path() {
    let mut m = MprisMetadata::default();
    assert_eq!(m.track_object_path(), None);
    m.track_id = Some("123".to_string());
    assert_eq!(m.track_object_path(), Some("/org/rustle/track/123".to_string()));
}
