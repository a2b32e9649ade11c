//! The system tray: the commands it sends, the state it shows, and what its
//! tooltip and menu say for a state.

use vstd::prelude::*;

use crate::settings::PlayMode;
use crate::text::{copy_string, push_str};

verus! {

/// Commands that the tray sends to the application.
#[derive(Debug, Clone)]
pub enum TrayCommand {
    /// Show or hide the window.
    ToggleWindow,
    PlayPause,
    NextTrack,
    PrevTrack,
    SetPlayMode(PlayMode),
    /// Toggle the favorite status of the current song.
    ToggleFavorite,
    Quit,
}

/// What the tray shows.
#[derive(Debug, Clone)]
pub struct TrayState {
    pub is_playing: bool,
    pub title: Option<String>,
    pub artist: Option<String>,
    pub play_mode: PlayMode,
    /// The song's id on the music service, when it has one (only such songs
    /// can be favorited).
    pub ncm_song_id: Option<u64>,
    pub is_favorited: bool,
}

impl Default for TrayState {
    fn default() -> (r: Self)
        ensures
            !r.is_playing,
            r.title is None,
            r.artist is None,
            r.play_mode == PlayMode::Sequential,
            r.ncm_song_id is None,
            !r.is_favorited,
    {
        TrayState {
            is_playing: false,
            title: None,
            artist: None,
            play_mode: PlayMode::Sequential,
            ncm_song_id: None,
            is_favorited: false,
        }
    }
}

/// The tooltip's description: `title - artist`, the title alone, or whether
/// something plays.
pub open spec fn tooltip_text(is_playing: bool, title: Option<Seq<char>>, artist: Option<Seq<char>>) -> Seq<char> {
    match (title, artist) {
        (Some(t), Some(a)) => t + " - "@ + a,
        (Some(t), None) => t,
        _ => if is_playing { "Playing..."@ } else { "Not playing"@ },
    }
}

/// The menu's first, disabled item: the song playing, or the player's name.
pub open spec fn now_playing_text(title: Option<Seq<char>>, artist: Option<Seq<char>>) -> Seq<char> {
    match title {
        Some(t) => match artist {
            Some(a) => "♪ "@ + t + " - "@ + a,
            None => "♪ "@ + t,
        },
        None => "Rustle Music"@,
    }
}

pub open spec fn opt_chars(o: Option<String>) -> Option<Seq<char>> {
    match o {
        Some(s) => Some(s@),
        None => None,
    }
}

/// The position of a play mode in the tray's play-mode menu.
pub open spec fn mode_index(m: PlayMode) -> usize {
    match m {
        PlayMode::Sequential => 0,
        PlayMode::LoopAll => 1,
        PlayMode::LoopOne => 2,
        PlayMode::Shuffle => 3,
    }
}

/// The play mode at a position of the menu (the first for any other).
pub open spec fn mode_at(i: usize) -> PlayMode {
    if i == 1 {
        PlayMode::LoopAll
    } else if i == 2 {
        PlayMode::LoopOne
    } else if i == 3 {
        PlayMode::Shuffle
    } else {
        PlayMode::Sequential
    }
}

impl TrayState {
    /// The tooltip's description (see [`tooltip_text`]).
    pub fn tool_tip_description(&self) -> (r: String)
        ensures
            r@ == tooltip_text(self.is_playing, opt_chars(self.title), opt_chars(self.artist)),
    {
        match (&self.title, &self.artist) {
            (Some(t), Some(a)) => {
                let mut s = copy_string(t);
                push_str(&mut s, " - ");
                push_str(&mut s, a.as_str());
                s
            },
            (Some(t), None) => copy_string(t),
            _ => {
                let mut s = String::new();
                if self.is_playing {
                    push_str(&mut s, "Playing...");
                } else {
                    push_str(&mut s, "Not playing");
                }
                s
            },
        }
    }

    /// The label of the menu's first item (see [`now_playing_text`]).
    pub fn now_playing_label(&self) -> (r: String)
        ensures
            r@ == now_playing_text(opt_chars(self.title), opt_chars(self.artist)),
    {
        let mut s = String::new();
        match &self.title {
            Some(t) => {
                push_str(&mut s, "♪ ");
                push_str(&mut s, t.as_str());
                if let Some(a) = &self.artist {
                    push_str(&mut s, " - ");
                    push_str(&mut s, a.as_str());
                }
            },
            None => push_str(&mut s, "Rustle Music"),
        }
        s
    }

    /// The play/pause item's label and icon: pause while playing, play otherwise.
    pub fn play_item(&self) -> (r: (&'static str, &'static str))
        ensures
            r.0@ == (if self.is_playing { "暂停"@ } else { "播放"@ }),
            r.1@ == (if self.is_playing { "media-playback-pause-symbolic"@ } else {
                "media-playback-start-symbolic"@
            }),
    {
        if self.is_playing {
            ("暂停", "media-playback-pause-symbolic")
        } else {
            ("播放", "media-playback-start-symbolic")
        }
    }

    /// The favorite item's label, icon and whether it is enabled: only songs
    /// of the music service can be favorited; the label offers the opposite
    /// of the current status.
    pub fn favorite_item(&self) -> (r: (&'static str, &'static str, bool))
        ensures
            r.2 == self.ncm_song_id is Some,
            r.0@ == (if r.2 && self.is_favorited { "取消收藏"@ } else { "收藏"@ }),
            r.1@ == (if r.2 && self.is_favorited { "starred-symbolic"@ } else { "non-starred-symbolic"@ }),
    {
        if self.ncm_song_id.is_some() {
            if self.is_favorited {
                ("取消收藏", "starred-symbolic", true)
            } else {
                ("收藏", "non-starred-symbolic", true)
            }
        } else {
            ("收藏", "non-starred-symbolic", false)
        }
    }
}

/// The position of the play mode in the menu (see [`mode_index`]).
pub fn play_mode_index(m: PlayMode) -> (r: usize)
    ensures
        r == mode_index(m),
{
    match m {
        PlayMode::Sequential => 0,
        PlayMode::LoopAll => 1,
        PlayMode::LoopOne => 2,
        PlayMode::Shuffle => 3,
    }
}

/// The play mode chosen at a position of the menu (see [`mode_at`]).
pub fn play_mode_at(index: usize) -> (r: PlayMode)
    ensures
        r == mode_at(index),
{
    if index == 1 {
        PlayMode::LoopAll
    } else if index == 2 {
        PlayMode::LoopOne
    } else if index == 3 {
        PlayMode::Shuffle
    } else {
        PlayMode::Sequential
    }
}

/// An entry of the tray menu.
#[derive(Debug, Clone)]
pub enum MenuEntry {
    /// A disabled line of text.
    Info { label: String },
    Separator,
    /// An item with its icon; when enabled, choosing it sends `command`.
    Item { label: &'static str, icon: &'static str, enabled: bool, command: Option<TrayCommand> },
    /// The play-mode submenu (see [`play_mode_menu`]), with the selected
    /// position (see [`mode_index`]); choosing a position sends `SetPlayMode`
    /// of [`mode_at`] it.
    PlayModes { selected: usize },
}

/// Whether `e` is an item with this label, icon, state and command.
pub open spec fn is_item(e: MenuEntry, label: Seq<char>, icon: Seq<char>, enabled: bool, command: Option<TrayCommand>) -> bool {
    match e {
        MenuEntry::Item { label: l, icon: i, enabled: en, command: c } => l@ == label && i@ == icon && en == enabled
            && c == command,
        _ => false,
    }
}

/// The tray menu of `st`, entry by entry: what the song is, a separator,
/// play/pause, previous, next, favorite (enabled only for songs of the music
/// service), a separator, the play modes, a separator, show/hide the window,
/// a separator, quit.
pub open spec fn menu_is(st: TrayState, m: Seq<MenuEntry>) -> bool {
    let fav = st.ncm_song_id is Some;
    &&& m.len() == 12
    &&& m[0] matches MenuEntry::Info { label } && label@ == now_playing_text(opt_chars(st.title), opt_chars(st.artist))
    &&& m[1] is Separator
    &&& is_item(
        m[2],
        if st.is_playing { "暂停"@ } else { "播放"@ },
        if st.is_playing { "media-playback-pause-symbolic"@ } else { "media-playback-start-symbolic"@ },
        true,
        Some(TrayCommand::PlayPause),
    )
    &&& is_item(m[3], "上一首"@, "media-skip-backward-symbolic"@, true, Some(TrayCommand::PrevTrack))
    &&& is_item(m[4], "下一首"@, "media-skip-forward-symbolic"@, true, Some(TrayCommand::NextTrack))
    &&& is_item(
        m[5],
        if fav && st.is_favorited { "取消收藏"@ } else { "收藏"@ },
        if fav && st.is_favorited { "starred-symbolic"@ } else { "non-starred-symbolic"@ },
        fav,
        if fav { Some(TrayCommand::ToggleFavorite) } else { None },
    )
    &&& m[6] is Separator
    &&& m[7] == MenuEntry::PlayModes { selected: mode_index(st.play_mode) }
    &&& m[8] is Separator
    &&& is_item(m[9], "显示/隐藏窗口"@, "view-restore-symbolic"@, true, Some(TrayCommand::ToggleWindow))
    &&& m[10] is Separator
    &&& is_item(m[11], "退出"@, "application-exit-symbolic"@, true, Some(TrayCommand::Quit))
}

impl TrayState {
    /// The tray menu (see [`menu_is`]).
    pub fn menu_entries(&self) -> (r: Vec<MenuEntry>)
        ensures
            menu_is(*self, r@),
    {
        let (play_label, play_icon) = self.play_item();
        let (fav_label, fav_icon, fav) = self.favorite_item();
        let fav_command = if fav { Some(TrayCommand::ToggleFavorite) } else { None };
        let mut m: Vec<MenuEntry> = Vec::new();
        m.push(MenuEntry::Info { label: self.now_playing_label() });
        m.push(MenuEntry::Separator);
        m.push(MenuEntry::Item { label: play_label, icon: play_icon, enabled: true, command: Some(TrayCommand::PlayPause) });
        m.push(MenuEntry::Item {
            label: "上一首",
            icon: "media-skip-backward-symbolic",
            enabled: true,
            command: Some(TrayCommand::PrevTrack),
        });
        m.push(MenuEntry::Item {
            label: "下一首",
            icon: "media-skip-forward-symbolic",
            enabled: true,
            command: Some(TrayCommand::NextTrack),
        });
        m.push(MenuEntry::Item { label: fav_label, icon: fav_icon, enabled: fav, command: fav_command });
        m.push(MenuEntry::Separator);
        m.push(MenuEntry::PlayModes { selected: play_mode_index(self.play_mode) });
        m.push(MenuEntry::Separator);
        m.push(MenuEntry::Item {
            label: "显示/隐藏窗口",
            icon: "view-restore-symbolic",
            enabled: true,
            command: Some(TrayCommand::ToggleWindow),
        });
        m.push(MenuEntry::Separator);
        m.push(MenuEntry::Item {
            label: "退出",
            icon: "application-exit-symbolic",
            enabled: true,
            command: Some(TrayCommand::Quit),
        });
        m
    }
}

/// The label and icon of the play-mode option at position `i` of the submenu
/// (positions as in [`mode_index`]).
pub open spec fn mode_option(i: int) -> (Seq<char>, Seq<char>) {
    if i == 0 {
        ("顺序播放"@, "media-playlist-consecutive-symbolic"@)
    } else if i == 1 {
        ("列表循环"@, "media-playlist-repeat-symbolic"@)
    } else if i == 2 {
        ("单曲循环"@, "media-playlist-repeat-song-symbolic"@)
    } else {
        ("随机播放"@, "media-playlist-shuffle-symbolic"@)
    }
}

/// The play-mode submenu: its label and icon, and its options' labels and
/// icons, in menu order.
#[derive(Debug, Clone)]
pub struct PlayModeMenu {
    pub label: &'static str,
    pub icon: &'static str,
    pub options: Vec<(&'static str, &'static str)>,
}

/// The play-mode submenu (see [`mode_option`]).
pub fn play_mode_menu() -> (r: PlayModeMenu)
    ensures
        r.label@ == "播放模式"@,
        r.icon@ == "media-playlist-consecutive-symbolic"@,
        r.options@.len() == 4,
        forall|i: int| 0 <= i < 4 ==> (r.options@[i].0@, r.options@[i].1@) == #[trigger] mode_option(i),
{
    let options = vec![
        ("顺序播放", "media-playlist-consecutive-symbolic"),
        ("列表循环", "media-playlist-repeat-symbolic"),
        ("单曲循环", "media-playlist-repeat-song-symbolic"),
        ("随机播放", "media-playlist-shuffle-symbolic"),
    ];
    PlayModeMenu { label: "播放模式", icon: "media-playlist-consecutive-symbolic", options }
}

/// Choosing the menu position of a play mode selects that mode again.
pub proof fn law_play_mode_menu_round_trip(m: PlayMode)
    ensures
        mode_at(mode_index(m)) == m,
        mode_index(m) < 4,
{
}

} // verus!
