//! User preferences: the choices offered, their names, and the proxy address
//! built from the network settings.

use vstd::prelude::*;

use crate::text::{dec, push_dec, push_str, string_is_empty};

verus! {

/// What closing the window does.
#[derive(Debug, Clone, Copy, PartialEq, Eq, Structural)]
pub enum CloseBehavior {
    /// Always ask.
    Ask,
    /// Close the application.
    Exit,
    /// Minimize to the system tray.
    MinimizeToTray,
}

impl Default for CloseBehavior {
    fn default() -> (r: Self)
        ensures
            r == CloseBehavior::Ask,
    {
        CloseBehavior::Ask
    }
}

pub open spec fn close_behavior_text(c: CloseBehavior) -> Seq<char> {
    match c {
        CloseBehavior::Ask => "询问"@,
        CloseBehavior::Exit => "退出"@,
        CloseBehavior::MinimizeToTray => "最小化到托盘"@,
    }
}

impl CloseBehavior {
    /// The name shown for this choice.
    pub fn to_string(&self) -> (r: String)
        ensures
            r@ == close_behavior_text(*self),
    {
        let mut s = String::new();
        match self {
            CloseBehavior::Ask => push_str(&mut s, "询问"),
            CloseBehavior::Exit => push_str(&mut s, "退出"),
            CloseBehavior::MinimizeToTray => push_str(&mut s, "最小化到托盘"),
        }
        s
    }
}

/// Streaming quality.
#[derive(Debug, Clone, Copy, PartialEq, Eq, Structural)]
pub enum MusicQuality {
    /// 128 kbps
    Standard,
    /// 192 kbps
    Higher,
    /// 320 kbps, the default
    High,
    /// Lossless (SQ)
    Lossless,
    /// Hi-Res
    HiRes,
}

impl Default for MusicQuality {
    fn default() -> (r: Self)
        ensures
            r == MusicQuality::High,
    {
        MusicQuality::High
    }
}

pub open spec fn all_qualities() -> Seq<MusicQuality> {
    seq![MusicQuality::Standard, MusicQuality::Higher, MusicQuality::High, MusicQuality::Lossless, MusicQuality::HiRes]
}

/// The streaming service's rate code of a quality.
pub open spec fn api_rate(q: MusicQuality) -> u32 {
    match q {
        MusicQuality::Standard => 0,
        MusicQuality::Higher => 1,
        MusicQuality::High => 2,
        MusicQuality::Lossless => 3,
        MusicQuality::HiRes => 4,
    }
}

pub open spec fn quality_name(q: MusicQuality) -> Seq<char> {
    match q {
        MusicQuality::Standard => "128kbps"@,
        MusicQuality::Higher => "192kbps"@,
        MusicQuality::High => "320kbps"@,
        MusicQuality::Lossless => "SQ (无损)"@,
        MusicQuality::HiRes => "Hi-Res"@,
    }
}

impl MusicQuality {
    /// Every quality, from lowest to highest; each one's rate code is its position.
    pub fn all() -> (r: Vec<Self>)
        ensures
            r@ == all_qualities(),
            forall|k: int| 0 <= k < r@.len() ==> api_rate(#[trigger] r@[k]) == k,
    {
        let r = vec![
            MusicQuality::Standard,
            MusicQuality::Higher,
            MusicQuality::High,
            MusicQuality::Lossless,
            MusicQuality::HiRes,
        ];
        assert(r@ =~= all_qualities());
        r
    }

    /// The rate code sent to the streaming service.
    pub fn to_api_rate(&self) -> (r: u32)
        ensures
            r == api_rate(*self),
    {
        match self {
            MusicQuality::Standard => 0,
            MusicQuality::Higher => 1,
            MusicQuality::High => 2,
            MusicQuality::Lossless => 3,
            MusicQuality::HiRes => 4,
        }
    }

    /// The name shown for this quality.
    pub fn display_name(&self) -> (r: &'static str)
        ensures
            r@ == quality_name(*self),
    {
        match self {
            MusicQuality::Standard => "128kbps",
            MusicQuality::Higher => "192kbps",
            MusicQuality::High => "320kbps",
            MusicQuality::Lossless => "SQ (无损)",
            MusicQuality::HiRes => "Hi-Res",
        }
    }
}

/// Equalizer presets.
#[derive(Debug, Clone, Copy, PartialEq, Eq, Structural)]
pub enum EqualizerPreset {
    Flat,
    Pop,
    Rock,
    Jazz,
    Classical,
    Electronic,
    HipHop,
    Acoustic,
    BassBoost,
    TrebleBoost,
    Vocal,
    /// User-defined values.
    Custom,
}

impl Default for EqualizerPreset {
    fn default() -> (r: Self)
        ensures
            r == EqualizerPreset::Flat,
    {
        EqualizerPreset::Flat
    }
}

pub open spec fn all_presets() -> Seq<EqualizerPreset> {
    seq![
        EqualizerPreset::Flat,
        EqualizerPreset::Pop,
        EqualizerPreset::Rock,
        EqualizerPreset::Jazz,
        EqualizerPreset::Classical,
        EqualizerPreset::Electronic,
        EqualizerPreset::HipHop,
        EqualizerPreset::Acoustic,
        EqualizerPreset::BassBoost,
        EqualizerPreset::TrebleBoost,
        EqualizerPreset::Vocal,
        EqualizerPreset::Custom,
    ]
}

pub open spec fn preset_name(p: EqualizerPreset) -> Seq<char> {
    match p {
        EqualizerPreset::Flat => "平坦"@,
        EqualizerPreset::Pop => "流行"@,
        EqualizerPreset::Rock => "摇滚"@,
        EqualizerPreset::Jazz => "爵士"@,
        EqualizerPreset::Classical => "古典"@,
        EqualizerPreset::Electronic => "电子"@,
        EqualizerPreset::HipHop => "嘻哈"@,
        EqualizerPreset::Acoustic => "原声"@,
        EqualizerPreset::BassBoost => "低音增强"@,
        EqualizerPreset::TrebleBoost => "高音增强"@,
        EqualizerPreset::Vocal => "人声"@,
        EqualizerPreset::Custom => "自定义"@,
    }
}

impl EqualizerPreset {
    /// Every preset, in the order they are offered.
    pub fn all() -> (r: Vec<EqualizerPreset>)
        ensures
            r@ == all_presets(),
    {
        let r = vec![
            EqualizerPreset::Flat,
            EqualizerPreset::Pop,
            EqualizerPreset::Rock,
            EqualizerPreset::Jazz,
            EqualizerPreset::Classical,
            EqualizerPreset::Electronic,
            EqualizerPreset::HipHop,
            EqualizerPreset::Acoustic,
            EqualizerPreset::BassBoost,
            EqualizerPreset::TrebleBoost,
            EqualizerPreset::Vocal,
            EqualizerPreset::Custom,
        ];
        assert(r@ =~= all_presets());
        r
    }

    /// The name shown for this preset.
    pub fn display_name(&self) -> (r: &'static str)
        ensures
            r@ == preset_name(*self),
    {
        match self {
            EqualizerPreset::Flat => "平坦",
            EqualizerPreset::Pop => "流行",
            EqualizerPreset::Rock => "摇滚",
            EqualizerPreset::Jazz => "爵士",
            EqualizerPreset::Classical => "古典",
            EqualizerPreset::Electronic => "电子",
            EqualizerPreset::HipHop => "嘻哈",
            EqualizerPreset::Acoustic => "原声",
            EqualizerPreset::BassBoost => "低音增强",
            EqualizerPreset::TrebleBoost => "高音增强",
            EqualizerPreset::Vocal => "人声",
            EqualizerPreset::Custom => "自定义",
        }
    }

    /// The name shown for this preset, as an owned string.
    pub fn to_string(&self) -> (r: String)
        ensures
            r@ == preset_name(*self),
    {
        let mut s = String::new();
        push_str(&mut s, self.display_name());
        s
    }
}

/// Display and interface settings.
#[derive(Debug, Clone, PartialEq)]
pub struct DisplaySettings {
    pub dark_mode: bool,
    /// The interface language's code.
    pub language: String,
    /// Disables animations and uses simple rendering.
    pub power_saving_mode: bool,
}

impl Default for DisplaySettings {
    fn default() -> (r: Self)
        ensures
            r.dark_mode,
            r.language@ == "zh"@,
            !r.power_saving_mode,
    {
        let mut language = String::new();
        push_str(&mut language, "zh");
        DisplaySettings { dark_mode: true, language, power_saving_mode: false }
    }
}

/// Storage settings.
#[derive(Debug, Clone, PartialEq)]
pub struct StorageSettings {
    /// Largest cache size, in MB.
    pub max_cache_mb: u64,
    pub cache_dir: Option<String>,
}

impl Default for StorageSettings {
    fn default() -> (r: Self)
        ensures
            r.max_cache_mb == 1024,
            r.cache_dir is None,
    {
        StorageSettings { max_cache_mb: 1024, cache_dir: None }
    }
}

/// System settings.
#[derive(Debug, Clone, PartialEq)]
pub struct SystemSettings {
    pub audio_output_device: Option<String>,
    /// Audio buffer size, in samples.
    pub audio_buffer_size: u32,
}

impl Default for SystemSettings {
    fn default() -> (r: Self)
        ensures
            r.audio_output_device is None,
            r.audio_buffer_size == 512,
    {
        SystemSettings { audio_output_device: None, audio_buffer_size: 512 }
    }
}

/// How the application reaches the network.
#[derive(Debug, Clone, Copy, PartialEq, Eq, Structural)]
pub enum ProxyType {
    /// No proxy.
    NoProxy,
    Http,
    Https,
    Socks5,
    /// The proxy that the system's environment names.
    System,
}

impl Default for ProxyType {
    fn default() -> (r: Self)
        ensures
            r == ProxyType::NoProxy,
    {
        ProxyType::NoProxy
    }
}

pub open spec fn proxy_type_text(p: ProxyType) -> Seq<char> {
    match p {
        ProxyType::NoProxy => "无代理"@,
        ProxyType::Http => "HTTP"@,
        ProxyType::Https => "HTTPS"@,
        ProxyType::Socks5 => "SOCKS5"@,
        ProxyType::System => "系统代理"@,
    }
}

impl ProxyType {
    /// The name shown for this choice.
    pub fn to_string(&self) -> (r: String)
        ensures
            r@ == proxy_type_text(*self),
    {
        let mut s = String::new();
        match self {
            ProxyType::NoProxy => push_str(&mut s, "无代理"),
            ProxyType::Http => push_str(&mut s, "HTTP"),
            ProxyType::Https => push_str(&mut s, "HTTPS"),
            ProxyType::Socks5 => push_str(&mut s, "SOCKS5"),
            ProxyType::System => push_str(&mut s, "系统代理"),
        }
        s
    }
}

/// Network settings.
#[derive(Debug, Clone, PartialEq)]
pub struct NetworkSettings {
    pub proxy_type: ProxyType,
    pub proxy_host: String,
    pub proxy_port: u16,
    pub proxy_username: Option<String>,
    pub proxy_password: Option<String>,
}

impl Default for NetworkSettings {
    fn default() -> (r: Self)
        ensures
            r.proxy_type == ProxyType::NoProxy,
            r.proxy_host@.len() == 0,
            r.proxy_port == 0,
            r.proxy_username is None,
            r.proxy_password is None,
    {
        NetworkSettings {
            proxy_type: ProxyType::NoProxy,
            proxy_host: String::new(),
            proxy_port: 0,
            proxy_username: None,
            proxy_password: None,
        }
    }
}

pub open spec fn opt_str(o: Option<String>) -> Option<Seq<char>> {
    match o {
        Some(s) => Some(s@),
        None => None,
    }
}

/// The credentials part of a proxy address: `user:password@`, `user@`, or
/// nothing (also for an empty user name).
pub open spec fn proxy_auth(user: Option<Seq<char>>, pass: Option<Seq<char>>) -> Seq<char> {
    match (user, pass) {
        (Some(u), Some(p)) => if u.len() > 0 { u + seq![':'] + p + seq!['@'] } else { Seq::empty() },
        (Some(u), None) => if u.len() > 0 { u + seq!['@'] } else { Seq::empty() },
        _ => Seq::empty(),
    }
}

/// The proxy address of the settings: none when disabled, the system's one
/// for `System`, and otherwise `scheme://[auth]host:port` when host and port
/// are set.
pub open spec fn proxy_address(n: NetworkSettings, system_proxy: Option<Seq<char>>) -> Option<Seq<char>> {
    match n.proxy_type {
        ProxyType::NoProxy => None,
        ProxyType::System => system_proxy,
        _ => if n.proxy_host@.len() == 0 || n.proxy_port == 0 {
            None
        } else {
            let scheme = match n.proxy_type {
                ProxyType::Http => "http"@,
                ProxyType::Https => "https"@,
                _ => "socks5"@,
            };
            Some(scheme + "://"@ + proxy_auth(opt_str(n.proxy_username), opt_str(n.proxy_password))
                + n.proxy_host@ + seq![':'] + dec(n.proxy_port as nat))
        },
    }
}

impl NetworkSettings {
    /// The proxy address to use, or none. `system_proxy` is what the
    /// environment holds (the first of `HTTP_PROXY`, `http_proxy`,
    /// `HTTPS_PROXY`, `https_proxy` that is set); it is used for `System`.
    pub fn proxy_url(&self, system_proxy: Option<String>) -> (r: Option<String>)
        ensures
            opt_str(r) == proxy_address(*self, opt_str(system_proxy)),
    {
        match self.proxy_type {
            ProxyType::NoProxy => None,
            ProxyType::System => system_proxy,
            _ => {
                if string_is_empty(&self.proxy_host) || self.proxy_port == 0 {
                    return None;
                }
                let mut s = String::new();
                match self.proxy_type {
                    ProxyType::Http => push_str(&mut s, "http"),
                    ProxyType::Https => push_str(&mut s, "https"),
                    _ => push_str(&mut s, "socks5"),
                }
                push_str(&mut s, "://");
                let ghost before_auth = s@;
                match (&self.proxy_username, &self.proxy_password) {
                    (Some(user), Some(pass)) => {
                        if !string_is_empty(user) {
                            push_str(&mut s, user.as_str());
                            push_str(&mut s, ":");
                            push_str(&mut s, pass.as_str());
                            push_str(&mut s, "@");
                        }
                    },
                    (Some(user), None) => {
                        if !string_is_empty(user) {
                            push_str(&mut s, user.as_str());
                            push_str(&mut s, "@");
                        }
                    },
                    _ => {},
                }
                proof {
                    reveal_strlit(":");
                    reveal_strlit("@");
                }
                assert(s@ =~= before_auth + proxy_auth(opt_str(self.proxy_username), opt_str(self.proxy_password)));
                push_str(&mut s, self.proxy_host.as_str());
                push_str(&mut s, ":");
                push_dec(&mut s, self.proxy_port as u64);
                Some(s)
            },
        }
    }
}

/// The order in which the play-mode button cycles.
#[derive(Debug, Clone, Copy, PartialEq, Eq, Structural)]
pub enum PlayMode {
    /// In order, stopping at the end.
    Sequential,
    /// In order, looping back to the start.
    LoopAll,
    /// Repeats the current song.
    LoopOne,
    /// Random order.
    Shuffle,
}

impl Default for PlayMode {
    fn default() -> (r: Self)
        ensures
            r == PlayMode::Sequential,
    {
        PlayMode::Sequential
    }
}

pub open spec fn next_mode(m: PlayMode) -> PlayMode {
    match m {
        PlayMode::Sequential => PlayMode::LoopAll,
        PlayMode::LoopAll => PlayMode::LoopOne,
        PlayMode::LoopOne => PlayMode::Shuffle,
        PlayMode::Shuffle => PlayMode::Sequential,
    }
}

pub open spec fn mode_name(m: PlayMode) -> Seq<char> {
    match m {
        PlayMode::Sequential => "顺序播放"@,
        PlayMode::LoopAll => "列表循环"@,
        PlayMode::LoopOne => "单曲循环"@,
        PlayMode::Shuffle => "随机播放"@,
    }
}

impl PlayMode {
    /// The next mode in the cycle.
    pub fn next(self) -> (r: Self)
        ensures
            r == next_mode(self),
    {
        match self {
            PlayMode::Sequential => PlayMode::LoopAll,
            PlayMode::LoopAll => PlayMode::LoopOne,
            PlayMode::LoopOne => PlayMode::Shuffle,
            PlayMode::Shuffle => PlayMode::Sequential,
        }
    }

    /// The name shown for this mode.
    pub fn display_name(&self) -> (r: &'static str)
        ensures
            r@ == mode_name(*self),
    {
        match self {
            PlayMode::Sequential => "顺序播放",
            PlayMode::LoopAll => "列表循环",
            PlayMode::LoopOne => "单曲循环",
            PlayMode::Shuffle => "随机播放",
        }
    }

    /// The name shown for this mode, as an owned string.
    pub fn to_string(&self) -> (r: String)
        ensures
            r@ == mode_name(*self),
    {
        let mut s = String::new();
        push_str(&mut s, self.display_name());
        s
    }
}

/// Pressing the play-mode button goes through all four modes and comes back
/// after four presses; no press leaves the mode as it was.
pub proof fn law_play_mode_cycle(m: PlayMode)
    ensures
        next_mode(next_mode(next_mode(next_mode(m)))) == m,
        next_mode(m) != m,
        next_mode(next_mode(m)) != m,
        next_mode(next_mode(next_mode(m))) != m,
{
}

/// Errors of reading or writing the settings file.
#[derive(Debug, Clone, PartialEq)]
pub enum SettingsError {
    Io(String),
    Parse(String),
}

pub open spec fn settings_error_text(e: SettingsError) -> Seq<char> {
    match e {
        SettingsError::Io(m) => "IO error: "@ + m@,
        SettingsError::Parse(m) => "Parse error: "@ + m@,
    }
}

impl SettingsError {
    /// The error's message.
    pub fn to_string(&self) -> (r: String)
        ensures
            r@ == settings_error_text(*self),
    {
        let mut s = String::new();
        match self {
            SettingsError::Io(m) => {
                push_str(&mut s, "IO error: ");
                push_str(&mut s, m.as_str());
            },
            SettingsError::Parse(m) => {
                push_str(&mut s, "Parse error: ");
                push_str(&mut s, m.as_str());
            },
        }
        s
    }
}

} // verus!
