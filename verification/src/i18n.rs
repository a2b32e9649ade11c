//! Interface languages and the keys of translated texts.

use vstd::prelude::*;

verus! {

/// Supported interface languages.
#[derive(Debug, Clone, Copy, PartialEq, Eq, Hash, Structural)]
pub enum Language {
    English,
    Chinese,
}

impl Default for Language {
    fn default() -> (r: Self)
        ensures
            r == Language::English,
    {
        Language::English
    }
}

pub open spec fn language_name(l: Language) -> Seq<char> {
    match l {
        Language::English => "English"@,
        Language::Chinese => "中文"@,
    }
}

pub open spec fn language_code(l: Language) -> Seq<char> {
    match l {
        Language::English => "en"@,
        Language::Chinese => "zh"@,
    }
}

impl Language {
    /// The language's name, in that language.
    pub fn display_name(&self) -> (r: &'static str)
        ensures
            r@ == language_name(*self),
    {
        match self {
            Language::English => "English",
            Language::Chinese => "中文",
        }
    }

    /// The language's code.
    pub fn code(&self) -> (r: &'static str)
        ensures
            r@ == language_code(*self),
    {
        match self {
            Language::English => "en",
            Language::Chinese => "zh",
        }
    }

    /// Every available language.
    pub fn all() -> (r: Vec<Language>)
        ensures
            r@ == seq![Language::English, Language::Chinese],
    {
        let r = vec![Language::English, Language::Chinese];
        assert(r@ =~= seq![Language::English, Language::Chinese]);
        r
    }
}

/// Keys of the translated interface texts.
#[derive(Debug, Clone, Copy, PartialEq, Eq, Hash, Structural)]
pub enum Key {
    // App
    AppName,

    // Navigation
    NavHome,
    NavDiscover,
    NavRadio,
    NavSettings,
    NavAudioEngine,

    // Library - Local
    LibraryTitle,
    LibraryRecentlyPlayed,
    ImportLocalPlaylist,
    // Library - Cloud
    CloudPlaylistsTitle,
    CloudPlaylistsNotLoggedIn,

    // User
    GuestUser,
    NotLoggedIn,
    ClickToLogin,
    FreeAccount,

    // Search
    SearchPlaceholder,

    // Hero Banner
    HeroTitle,
    HeroSubtitle,
    PlayButton,

    // Trending
    TrendingSongs,
    SeeAll,

    // Recently Played
    RecentlyPlayed,
    RecentlyPlayedDescription,
    RecentlyPlayedList,

    // Window Controls
    Minimize,
    Maximize,
    Close,
    Settings,

    // Navigation Controls
    Back,
    Forward,

    // Settings Page - Tabs
    SettingsTitle,
    SettingsTabPlayback,
    SettingsTabDisplay,
    SettingsTabSystem,
    SettingsTabStorage,
    SettingsTabShortcuts,
    SettingsTabAbout,
    SettingsTabAccount,

    // Settings - Playback Section
    SettingsPlaybackTitle,
    SettingsMusicQuality,
    SettingsMusicQualityDesc,
    SettingsFadeInOut,
    SettingsFadeInOutDesc,
    SettingsVolumeNormalization,
    SettingsVolumeNormalizationDesc,
    SettingsEqualizer,
    SettingsEqualizerDesc,

    // Audio Engine Page
    AudioEngineTitle,
    AudioEngineDesc,
    AudioEngineEqualizer,
    AudioEngineEqualizerDesc,
    AudioEngineVolumeVisualization,
    AudioEngineVolumeVisualizationDesc,
    AudioEngineWaveform,
    AudioEngineWaveformDesc,

    // Settings - Account Section
    SettingsAccountTitle,
    SettingsAccountNotLoggedIn,
    SettingsAccountLoggedInAs,
    SettingsAccountVipStatus,
    SettingsAccountLogout,

    // Settings - Display Section
    SettingsDisplayTitle,
    SettingsDarkMode,
    SettingsLanguage,
    SettingsPowerSavingMode,
    SettingsPowerSavingModeDesc,
    SettingsCloseBehavior,
    SettingsCloseBehaviorAsk,
    SettingsCloseBehaviorExit,
    SettingsCloseBehaviorMinimize,

    // Settings - System Section
    SettingsSystemTitle,
    SettingsAudioDevice,
    SettingsAudioBuffer,
    SettingsAudioBufferDesc,
    SettingsDefaultDevice,

    // Settings - Network Section
    SettingsNetworkTitle,
    SettingsTabNetwork,
    SettingsProxyType,
    SettingsProxyHost,
    SettingsProxyPort,
    SettingsProxyUsername,
    SettingsProxyPassword,
    SettingsProxyNone,
    SettingsProxySystem,

    // Settings - Storage Section
    SettingsStorageTitle,
    SettingsCacheLocation,
    SettingsCacheSize,
    SettingsMaxCache,
    SettingsClearCache,
    SettingsClearCacheDesc,
    SettingsClearButton,

    // Settings - Shortcuts Section
    SettingsShortcutsTitle,
    SettingsShortcutsPlayback,
    SettingsShortcutsNavigation,
    SettingsShortcutsUI,
    SettingsShortcutsGeneral,

    // Settings - About Section
    SettingsAboutTitle,
    SettingsAppName,
    SettingsVersion,
    SettingsDeveloper,
    SettingsDescription,

    // Shortcut Actions
    ActionPlayPause,
    ActionNextTrack,
    ActionPrevTrack,
    ActionVolumeUp,
    ActionVolumeDown,
    ActionVolumeMute,
    ActionSeekForward,
    ActionSeekBackward,
    ActionGoHome,
    ActionGoSearch,
    ActionGoQueue,
    ActionGoSettings,
    ActionToggleQueue,
    ActionToggleSidebar,
    ActionToggleFullscreen,
    ActionEscape,
    ActionDelete,
    ActionSelectAll,

    // Playlist Page
    PlaylistTypeLabel,
    PlaylistLikes,
    PlaylistSongCount,
    PlaylistCustomSort,
    PlaylistHeaderNumber,
    PlaylistHeaderTitle,
    PlaylistHeaderAlbum,
    PlaylistHeaderAddedDate,

    // Discover Page
    DiscoverRecommended,
    DiscoverHot,
    DiscoverSeeAll,

    // Common UI
    Loading,
    Cancel,
    Save,
    Delete,
    Refresh,

    // Lyrics Page
    LyricsNoLyrics,
    LyricsPureMusic,

    // Audio Engine
    AudioEngineEqualizerDisabled,
    AudioEngineSpectrum,

    // Queue Panel
    QueueTitle,
    QueueSongCount,
    QueueEmpty,

    // Playlist View
    PlaylistNoSongs,

    // Login Popup
    LoginScanQr,
    LoginGeneratingQr,
    LoginRefreshQr,
    LoginLoggedIn,
    LoginLogout,

    // Delete Playlist Dialog
    DeletePlaylistTitle,
    DeletePlaylistConfirm,

    // Edit Playlist Dialog
    EditPlaylistTitle,
    EditPlaylistChangeCover,
    EditPlaylistName,
    EditPlaylistNamePlaceholder,
    EditPlaylistDesc,
    EditPlaylistDescPlaceholder,

    // Exit Dialog
    ExitDialogTitle,
    ExitDialogMessage,
    ExitDialogExit,
    ExitDialogMinimize,
}

/// The translated texts of each language: pairs of a key and its text.
pub struct Translations {
    pub english: Vec<(Key, &'static str)>,
    pub chinese: Vec<(Key, &'static str)>,
}

/// The table of a language.
pub open spec fn table_of(tables: Translations, lang: Language) -> Seq<(Key, &'static str)> {
    match lang {
        Language::English => tables.english@,
        Language::Chinese => tables.chinese@,
    }
}

/// The text of `key` in a table: that of its first entry, or `???` when the
/// table has none.
pub open spec fn table_text(table: Seq<(Key, &'static str)>, key: Key) -> Seq<char>
    decreases table.len(),
{
    if table.len() == 0 {
        "???"@
    } else if table[0].0 == key {
        table[0].1@
    } else {
        table_text(table.drop_first(), key)
    }
}

fn lookup(table: &Vec<(Key, &'static str)>, key: Key) -> (r: &'static str)
    ensures
        r@ == table_text(table@, key),
{
    let mut i: usize = 0;
    assert(table@.skip(0) =~= table@);
    while i < table.len()
        invariant
            i <= table@.len(),
            table_text(table@, key) == table_text(table@.skip(i as int), key),
        decreases table@.len() - i,
    {
        let (k, text) = table[i];
        assert(table@.skip(i as int)[0] == table@[i as int]);
        if k == key {
            return text;
        }
        assert(table@.skip(i as int).drop_first() =~= table@.skip(i + 1));
        i += 1;
    }
    assert(table@.skip(i as int).len() == 0);
    "???"
}

/// The text of `key` in `lang`.
pub fn t(tables: &Translations, lang: Language, key: Key) -> (r: &'static str)
    ensures
        r@ == table_text(table_of(*tables, lang), key),
{
    match lang {
        Language::English => lookup(&tables.english, key),
        Language::Chinese => lookup(&tables.chinese, key),
    }
}

/// The language in which texts are shown.
#[derive(Debug, Clone, Copy, PartialEq, Eq, Structural)]
pub struct Locale {
    pub language: Language,
}

impl Default for Locale {
    fn default() -> (r: Self)
        ensures
            r.language == Language::English,
    {
        Locale { language: Language::English }
    }
}

impl Locale {
    pub fn new(language: Language) -> (r: Self)
        ensures
            r.language == language,
    {
        Locale { language }
    }

    /// The text of `key` in this locale's language.
    pub fn get(&self, tables: &Translations, key: Key) -> (r: &'static str)
        ensures
            r@ == table_text(table_of(*tables, self.language), key),
    {
        t(tables, self.language, key)
    }
}

} // verus!
