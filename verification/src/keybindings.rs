//! Customizable keyboard shortcuts.
//!
//! Every action has, per scope (inside the application, or system-wide), a
//! list of key bindings; the first one is the one shown. Key events are given
//! in the library's own terms ([`KeyInput`], [`KeyModifiers`]).
//!
//! The primary modifier is Ctrl and the Command modifier is shown as `Super`,
//! as on Linux and Windows desktops.

use vstd::prelude::*;

use crate::text::{ascii_lower, ascii_only, lowercase, push_str, string_chars, to_lowercase};

verus! {

/// All bindable actions in the application.
#[derive(Debug, Clone, Copy, PartialEq, Eq, Hash, Structural)]
pub enum Action {
    PlayPause,
    NextTrack,
    PrevTrack,
    VolumeUp,
    VolumeDown,
    VolumeMute,
    SeekForward,
    SeekBackward,
    GoHome,
    FocusSearch,
    ToggleQueue,
    ToggleFullscreen,
}

/// Every action, in the order in which matching and listing go through them.
pub open spec fn all_actions() -> Seq<Action> {
    seq![
        Action::PlayPause,
        Action::NextTrack,
        Action::PrevTrack,
        Action::VolumeUp,
        Action::VolumeDown,
        Action::VolumeMute,
        Action::SeekForward,
        Action::SeekBackward,
        Action::GoHome,
        Action::FocusSearch,
        Action::ToggleQueue,
        Action::ToggleFullscreen,
    ]
}

impl Action {
    /// Every action, in order.
    pub fn all() -> (r: Vec<Action>)
        ensures
            r@ == all_actions(),
    {
        let r = vec![
            Action::PlayPause,
            Action::NextTrack,
            Action::PrevTrack,
            Action::VolumeUp,
            Action::VolumeDown,
            Action::VolumeMute,
            Action::SeekForward,
            Action::SeekBackward,
            Action::GoHome,
            Action::FocusSearch,
            Action::ToggleQueue,
            Action::ToggleFullscreen,
        ];
        assert(r@ =~= all_actions());
        r
    }
}

/// Whether the local or the operating-system global shortcut is edited.
#[derive(Debug, Clone, Copy, PartialEq, Eq, Structural)]
pub enum ShortcutScope {
    Local,
    Global,
}

/// A set of modifier keys.
#[derive(Debug, Clone, Copy, PartialEq, Eq, Hash, Structural)]
pub struct ModifierSet {
    pub ctrl: bool,
    pub cmd: bool,
    pub alt: bool,
    pub shift: bool,
}

impl Default for ModifierSet {
    fn default() -> (r: Self)
        ensures
            r == no_modifiers(),
    {
        ModifierSet { ctrl: false, cmd: false, alt: false, shift: false }
    }
}

pub open spec fn no_modifiers() -> ModifierSet {
    ModifierSet { ctrl: false, cmd: false, alt: false, shift: false }
}

/// The modifier state of a key event.
#[derive(Debug, Clone, Copy, PartialEq, Eq, Structural)]
pub struct KeyModifiers {
    pub control: bool,
    pub logo: bool,
    pub alt: bool,
    pub shift: bool,
}

impl ModifierSet {
    /// Whether the modifiers of an event are exactly these.
    pub fn matches(&self, modifiers: &KeyModifiers) -> (r: bool)
        ensures
            r == modifiers_match(*self, *modifiers),
    {
        self.ctrl == modifiers.control && self.cmd == modifiers.logo && self.alt == modifiers.alt
            && self.shift == modifiers.shift
    }

    /// The comparison for system-wide shortcuts, which checks the logo key exactly.
    pub fn matches_global(&self, modifiers: &KeyModifiers) -> (r: bool)
        ensures
            r == modifiers_match(*self, *modifiers),
    {
        self.ctrl == modifiers.control && self.cmd == modifiers.logo && self.alt == modifiers.alt
            && self.shift == modifiers.shift
    }
}

pub open spec fn modifiers_match(m: ModifierSet, e: KeyModifiers) -> bool {
    m.ctrl == e.control && m.cmd == e.logo && m.alt == e.alt && m.shift == e.shift
}

/// Supported key codes.
#[derive(Debug, Clone, Copy, PartialEq, Eq, Hash, Structural)]
pub enum KeyCode {
    A, B, C, D, E, F, G, H, I, J, K, L, M, N, O, P, Q, R, S, T, U, V, W, X, Y, Z,
    Key0, Key1, Key2, Key3, Key4, Key5, Key6, Key7, Key8, Key9,
    F1, F2, F3, F4, F5, F6, F7, F8, F9, F10, F11, F12,
    Up, Down, Left, Right, Home, End, PageUp, PageDown,
    Space, Enter, Escape, Tab, Backspace, Delete,
    MediaPlayPause, MediaNext, MediaPrev, VolumeUp, VolumeDown, VolumeMute,
}

/// Named (non-character) keys of a key event.
#[derive(Debug, Clone, Copy, PartialEq, Eq, Structural)]
pub enum NamedKey {
    Space, Enter, Escape, Tab, Backspace, Delete,
    ArrowUp, ArrowDown, ArrowLeft, ArrowRight, Home, End, PageUp, PageDown,
    F1, F2, F3, F4, F5, F6, F7, F8, F9, F10, F11, F12,
    MediaPlayPause, MediaTrackNext, MediaTrackPrevious,
    AudioVolumeUp, AudioVolumeDown, AudioVolumeMute,
    /// Any other named key.
    Other,
}

/// The key of a key event.
#[derive(Debug, Clone, PartialEq)]
pub enum KeyInput {
    /// A key that produces text.
    Character(String),
    Named(NamedKey),
    Unidentified,
}

/// The text that a key code's key produces, for letters, digits and space (lowercase).
pub open spec fn key_char(k: KeyCode) -> Option<Seq<char>> {
    match k {
        KeyCode::A => Some(seq!['a']), KeyCode::B => Some(seq!['b']), KeyCode::C => Some(seq!['c']),
        KeyCode::D => Some(seq!['d']), KeyCode::E => Some(seq!['e']), KeyCode::F => Some(seq!['f']),
        KeyCode::G => Some(seq!['g']), KeyCode::H => Some(seq!['h']), KeyCode::I => Some(seq!['i']),
        KeyCode::J => Some(seq!['j']), KeyCode::K => Some(seq!['k']), KeyCode::L => Some(seq!['l']),
        KeyCode::M => Some(seq!['m']), KeyCode::N => Some(seq!['n']), KeyCode::O => Some(seq!['o']),
        KeyCode::P => Some(seq!['p']), KeyCode::Q => Some(seq!['q']), KeyCode::R => Some(seq!['r']),
        KeyCode::S => Some(seq!['s']), KeyCode::T => Some(seq!['t']), KeyCode::U => Some(seq!['u']),
        KeyCode::V => Some(seq!['v']), KeyCode::W => Some(seq!['w']), KeyCode::X => Some(seq!['x']),
        KeyCode::Y => Some(seq!['y']), KeyCode::Z => Some(seq!['z']),
        KeyCode::Key0 => Some(seq!['0']), KeyCode::Key1 => Some(seq!['1']), KeyCode::Key2 => Some(seq!['2']),
        KeyCode::Key3 => Some(seq!['3']), KeyCode::Key4 => Some(seq!['4']), KeyCode::Key5 => Some(seq!['5']),
        KeyCode::Key6 => Some(seq!['6']), KeyCode::Key7 => Some(seq!['7']), KeyCode::Key8 => Some(seq!['8']),
        KeyCode::Key9 => Some(seq!['9']),
        KeyCode::Space => Some(seq![' ']),
        _ => None,
    }
}

/// The named key that a key code stands for.
pub open spec fn key_named(k: KeyCode) -> Option<NamedKey> {
    match k {
        KeyCode::Space => Some(NamedKey::Space),
        KeyCode::Enter => Some(NamedKey::Enter),
        KeyCode::Escape => Some(NamedKey::Escape),
        KeyCode::Tab => Some(NamedKey::Tab),
        KeyCode::Backspace => Some(NamedKey::Backspace),
        KeyCode::Delete => Some(NamedKey::Delete),
        KeyCode::Up => Some(NamedKey::ArrowUp),
        KeyCode::Down => Some(NamedKey::ArrowDown),
        KeyCode::Left => Some(NamedKey::ArrowLeft),
        KeyCode::Right => Some(NamedKey::ArrowRight),
        KeyCode::Home => Some(NamedKey::Home),
        KeyCode::End => Some(NamedKey::End),
        KeyCode::PageUp => Some(NamedKey::PageUp),
        KeyCode::PageDown => Some(NamedKey::PageDown),
        KeyCode::F1 => Some(NamedKey::F1),
        KeyCode::F2 => Some(NamedKey::F2),
        KeyCode::F3 => Some(NamedKey::F3),
        KeyCode::F4 => Some(NamedKey::F4),
        KeyCode::F5 => Some(NamedKey::F5),
        KeyCode::F6 => Some(NamedKey::F6),
        KeyCode::F7 => Some(NamedKey::F7),
        KeyCode::F8 => Some(NamedKey::F8),
        KeyCode::F9 => Some(NamedKey::F9),
        KeyCode::F10 => Some(NamedKey::F10),
        KeyCode::F11 => Some(NamedKey::F11),
        KeyCode::F12 => Some(NamedKey::F12),
        KeyCode::MediaPlayPause => Some(NamedKey::MediaPlayPause),
        KeyCode::MediaNext => Some(NamedKey::MediaTrackNext),
        KeyCode::MediaPrev => Some(NamedKey::MediaTrackPrevious),
        KeyCode::VolumeUp => Some(NamedKey::AudioVolumeUp),
        KeyCode::VolumeDown => Some(NamedKey::AudioVolumeDown),
        KeyCode::VolumeMute => Some(NamedKey::AudioVolumeMute),
        _ => None,
    }
}

/// A character key matches when its lowercased text is the key code's text;
/// a named key matches the key code that stands for it.
pub open spec fn key_matches(k: KeyCode, key: KeyInput) -> bool {
    match key {
        KeyInput::Character(c) => key_char(k) == Some(lowercase(c@)),
        KeyInput::Named(n) => n != NamedKey::Other && key_named(k) == Some(n),
        KeyInput::Unidentified => false,
    }
}

/// The name shown for a key code.
pub open spec fn key_name(k: KeyCode) -> Seq<char> {
    match k {
        KeyCode::A => "A"@, KeyCode::B => "B"@, KeyCode::C => "C"@, KeyCode::D => "D"@,
        KeyCode::E => "E"@, KeyCode::F => "F"@, KeyCode::G => "G"@, KeyCode::H => "H"@,
        KeyCode::I => "I"@, KeyCode::J => "J"@, KeyCode::K => "K"@, KeyCode::L => "L"@,
        KeyCode::M => "M"@, KeyCode::N => "N"@, KeyCode::O => "O"@, KeyCode::P => "P"@,
        KeyCode::Q => "Q"@, KeyCode::R => "R"@, KeyCode::S => "S"@, KeyCode::T => "T"@,
        KeyCode::U => "U"@, KeyCode::V => "V"@, KeyCode::W => "W"@, KeyCode::X => "X"@,
        KeyCode::Y => "Y"@, KeyCode::Z => "Z"@,
        KeyCode::Key0 => "0"@, KeyCode::Key1 => "1"@, KeyCode::Key2 => "2"@, KeyCode::Key3 => "3"@,
        KeyCode::Key4 => "4"@, KeyCode::Key5 => "5"@, KeyCode::Key6 => "6"@, KeyCode::Key7 => "7"@,
        KeyCode::Key8 => "8"@, KeyCode::Key9 => "9"@,
        KeyCode::F1 => "F1"@, KeyCode::F2 => "F2"@, KeyCode::F3 => "F3"@, KeyCode::F4 => "F4"@,
        KeyCode::F5 => "F5"@, KeyCode::F6 => "F6"@, KeyCode::F7 => "F7"@, KeyCode::F8 => "F8"@,
        KeyCode::F9 => "F9"@, KeyCode::F10 => "F10"@, KeyCode::F11 => "F11"@, KeyCode::F12 => "F12"@,
        KeyCode::Up => "↑"@, KeyCode::Down => "↓"@, KeyCode::Left => "←"@, KeyCode::Right => "→"@,
        KeyCode::Home => "Home"@, KeyCode::End => "End"@, KeyCode::PageUp => "PageUp"@,
        KeyCode::PageDown => "PageDown"@,
        KeyCode::Space => "Space"@, KeyCode::Enter => "Enter"@, KeyCode::Escape => "Esc"@,
        KeyCode::Tab => "Tab"@, KeyCode::Backspace => "Backspace"@, KeyCode::Delete => "Delete"@,
        KeyCode::MediaPlayPause => "Media Play"@, KeyCode::MediaNext => "Media Next"@,
        KeyCode::MediaPrev => "Media Prev"@, KeyCode::VolumeUp => "Vol+"@, KeyCode::VolumeDown => "Vol-"@,
        KeyCode::VolumeMute => "Mute"@,
    }
}

/// The key whose label is `s`, read from the label's length, first and
/// last character.
pub open spec fn key_of_label(s: Seq<char>) -> Option<KeyCode> {
    if s.len() == 0 {
        None
    } else {
        let a = s[0];
        let z = s[s.len() - 1];
        if s.len() == 1 {
            match a {
                'A' => Some(KeyCode::A),
                'B' => Some(KeyCode::B),
                'C' => Some(KeyCode::C),
                'D' => Some(KeyCode::D),
                'E' => Some(KeyCode::E),
                'F' => Some(KeyCode::F),
                'G' => Some(KeyCode::G),
                'H' => Some(KeyCode::H),
                'I' => Some(KeyCode::I),
                'J' => Some(KeyCode::J),
                'K' => Some(KeyCode::K),
                'L' => Some(KeyCode::L),
                'M' => Some(KeyCode::M),
                'N' => Some(KeyCode::N),
                'O' => Some(KeyCode::O),
                'P' => Some(KeyCode::P),
                'Q' => Some(KeyCode::Q),
                'R' => Some(KeyCode::R),
                'S' => Some(KeyCode::S),
                'T' => Some(KeyCode::T),
                'U' => Some(KeyCode::U),
                'V' => Some(KeyCode::V),
                'W' => Some(KeyCode::W),
                'X' => Some(KeyCode::X),
                'Y' => Some(KeyCode::Y),
                'Z' => Some(KeyCode::Z),
                '0' => Some(KeyCode::Key0),
                '1' => Some(KeyCode::Key1),
                '2' => Some(KeyCode::Key2),
                '3' => Some(KeyCode::Key3),
                '4' => Some(KeyCode::Key4),
                '5' => Some(KeyCode::Key5),
                '6' => Some(KeyCode::Key6),
                '7' => Some(KeyCode::Key7),
                '8' => Some(KeyCode::Key8),
                '9' => Some(KeyCode::Key9),
                '↑' => Some(KeyCode::Up),
                '↓' => Some(KeyCode::Down),
                '←' => Some(KeyCode::Left),
                '→' => Some(KeyCode::Right),
                _ => None,
            }
        } else if s.len() == 2 {
            if a == 'F' && z == '1' {
                Some(KeyCode::F1)
            } else if a == 'F' && z == '2' {
                Some(KeyCode::F2)
            } else if a == 'F' && z == '3' {
                Some(KeyCode::F3)
            } else if a == 'F' && z == '4' {
                Some(KeyCode::F4)
            } else if a == 'F' && z == '5' {
                Some(KeyCode::F5)
            } else if a == 'F' && z == '6' {
                Some(KeyCode::F6)
            } else if a == 'F' && z == '7' {
                Some(KeyCode::F7)
            } else if a == 'F' && z == '8' {
                Some(KeyCode::F8)
            } else if a == 'F' && z == '9' {
                Some(KeyCode::F9)
            } else {
                None
            }
        } else if s.len() == 3 {
            if a == 'F' && z == '0' {
                Some(KeyCode::F10)
            } else if a == 'F' && z == '1' {
                Some(KeyCode::F11)
            } else if a == 'F' && z == '2' {
                Some(KeyCode::F12)
            } else if a == 'E' && z == 'd' {
                Some(KeyCode::End)
            } else if a == 'E' && z == 'c' {
                Some(KeyCode::Escape)
            } else if a == 'T' && z == 'b' {
                Some(KeyCode::Tab)
            } else {
                None
            }
        } else if s.len() == 4 {
            if a == 'H' && z == 'e' {
                Some(KeyCode::Home)
            } else if a == 'V' && z == '+' {
                Some(KeyCode::VolumeUp)
            } else if a == 'V' && z == '-' {
                Some(KeyCode::VolumeDown)
            } else if a == 'M' && z == 'e' {
                Some(KeyCode::VolumeMute)
            } else {
                None
            }
        } else if s.len() == 5 {
            if a == 'S' && z == 'e' {
                Some(KeyCode::Space)
            } else if a == 'E' && z == 'r' {
                Some(KeyCode::Enter)
            } else {
                None
            }
        } else if s.len() == 6 {
            if a == 'P' && z == 'p' {
                Some(KeyCode::PageUp)
            } else if a == 'D' && z == 'e' {
                Some(KeyCode::Delete)
            } else {
                None
            }
        } else if s.len() == 8 {
            if a == 'P' && z == 'n' {
                Some(KeyCode::PageDown)
            } else {
                None
            }
        } else if s.len() == 9 {
            if a == 'B' && z == 'e' {
                Some(KeyCode::Backspace)
            } else {
                None
            }
        } else if s.len() == 10 {
            if a == 'M' && z == 'y' {
                Some(KeyCode::MediaPlayPause)
            } else if a == 'M' && z == 't' {
                Some(KeyCode::MediaNext)
            } else if a == 'M' && z == 'v' {
                Some(KeyCode::MediaPrev)
            } else {
                None
            }
        } else {
            None
        }
    }
}

proof fn lemma_key_label_decodes(k: KeyCode)
    ensures
        key_of_label(key_name(k)) == Some(k),
{
    match k {
        KeyCode::A => {
            reveal_strlit("A");
        },
        KeyCode::B => {
            reveal_strlit("B");
        },
        KeyCode::C => {
            reveal_strlit("C");
        },
        KeyCode::D => {
            reveal_strlit("D");
        },
        KeyCode::E => {
            reveal_strlit("E");
        },
        KeyCode::F => {
            reveal_strlit("F");
        },
        KeyCode::G => {
            reveal_strlit("G");
        },
        KeyCode::H => {
            reveal_strlit("H");
        },
        KeyCode::I => {
            reveal_strlit("I");
        },
        KeyCode::J => {
            reveal_strlit("J");
        },
        KeyCode::K => {
            reveal_strlit("K");
        },
        KeyCode::L => {
            reveal_strlit("L");
        },
        KeyCode::M => {
            reveal_strlit("M");
        },
        KeyCode::N => {
            reveal_strlit("N");
        },
        KeyCode::O => {
            reveal_strlit("O");
        },
        KeyCode::P => {
            reveal_strlit("P");
        },
        KeyCode::Q => {
            reveal_strlit("Q");
        },
        KeyCode::R => {
            reveal_strlit("R");
        },
        KeyCode::S => {
            reveal_strlit("S");
        },
        KeyCode::T => {
            reveal_strlit("T");
        },
        KeyCode::U => {
            reveal_strlit("U");
        },
        KeyCode::V => {
            reveal_strlit("V");
        },
        KeyCode::W => {
            reveal_strlit("W");
        },
        KeyCode::X => {
            reveal_strlit("X");
        },
        KeyCode::Y => {
            reveal_strlit("Y");
        },
        KeyCode::Z => {
            reveal_strlit("Z");
        },
        KeyCode::Key0 => {
            reveal_strlit("0");
        },
        KeyCode::Key1 => {
            reveal_strlit("1");
        },
        KeyCode::Key2 => {
            reveal_strlit("2");
        },
        KeyCode::Key3 => {
            reveal_strlit("3");
        },
        KeyCode::Key4 => {
            reveal_strlit("4");
        },
        KeyCode::Key5 => {
            reveal_strlit("5");
        },
        KeyCode::Key6 => {
            reveal_strlit("6");
        },
        KeyCode::Key7 => {
            reveal_strlit("7");
        },
        KeyCode::Key8 => {
            reveal_strlit("8");
        },
        KeyCode::Key9 => {
            reveal_strlit("9");
        },
        KeyCode::F1 => {
            reveal_strlit("F1");
        },
        KeyCode::F2 => {
            reveal_strlit("F2");
        },
        KeyCode::F3 => {
            reveal_strlit("F3");
        },
        KeyCode::F4 => {
            reveal_strlit("F4");
        },
        KeyCode::F5 => {
            reveal_strlit("F5");
        },
        KeyCode::F6 => {
            reveal_strlit("F6");
        },
        KeyCode::F7 => {
            reveal_strlit("F7");
        },
        KeyCode::F8 => {
            reveal_strlit("F8");
        },
        KeyCode::F9 => {
            reveal_strlit("F9");
        },
        KeyCode::F10 => {
            reveal_strlit("F10");
        },
        KeyCode::F11 => {
            reveal_strlit("F11");
        },
        KeyCode::F12 => {
            reveal_strlit("F12");
        },
        KeyCode::Up => {
            reveal_strlit("↑");
        },
        KeyCode::Down => {
            reveal_strlit("↓");
        },
        KeyCode::Left => {
            reveal_strlit("←");
        },
        KeyCode::Right => {
            reveal_strlit("→");
        },
        KeyCode::Home => {
            reveal_strlit("Home");
        },
        KeyCode::End => {
            reveal_strlit("End");
        },
        KeyCode::PageUp => {
            reveal_strlit("PageUp");
        },
        KeyCode::PageDown => {
            reveal_strlit("PageDown");
        },
        KeyCode::Space => {
            reveal_strlit("Space");
        },
        KeyCode::Enter => {
            reveal_strlit("Enter");
        },
        KeyCode::Escape => {
            reveal_strlit("Esc");
        },
        KeyCode::Tab => {
            reveal_strlit("Tab");
        },
        KeyCode::Backspace => {
            reveal_strlit("Backspace");
        },
        KeyCode::Delete => {
            reveal_strlit("Delete");
        },
        KeyCode::MediaPlayPause => {
            reveal_strlit("Media Play");
        },
        KeyCode::MediaNext => {
            reveal_strlit("Media Next");
        },
        KeyCode::MediaPrev => {
            reveal_strlit("Media Prev");
        },
        KeyCode::VolumeUp => {
            reveal_strlit("Vol+");
        },
        KeyCode::VolumeDown => {
            reveal_strlit("Vol-");
        },
        KeyCode::VolumeMute => {
            reveal_strlit("Mute");
        },
    }
}

/// Every key has its own label.
pub proof fn lemma_key_names_distinct(a: KeyCode, b: KeyCode)
    requires
        a != b,
    ensures
        key_name(a) != key_name(b),
{
    lemma_key_label_decodes(a);
    lemma_key_label_decodes(b);
}

/// Each arrow key code matches exactly the named arrow key of its own
/// direction, and no character.
pub proof fn lemma_arrow_keys_match_their_direction(n: NamedKey, t: String)
    ensures
        key_matches(KeyCode::Left, KeyInput::Named(n)) <==> n == NamedKey::ArrowLeft,
        key_matches(KeyCode::Right, KeyInput::Named(n)) <==> n == NamedKey::ArrowRight,
        key_matches(KeyCode::Up, KeyInput::Named(n)) <==> n == NamedKey::ArrowUp,
        key_matches(KeyCode::Down, KeyInput::Named(n)) <==> n == NamedKey::ArrowDown,
        !key_matches(KeyCode::Left, KeyInput::Character(t)),
        !key_matches(KeyCode::Right, KeyInput::Character(t)),
{
}

/// Each key code without text matches exactly the named key of the same
/// meaning (`Up` the up arrow, `MediaNext` the next-track key, ...), and a
/// named key never matches a letter or digit key.
pub proof fn lemma_named_keys_match_their_meaning(n: NamedKey)
    ensures
        key_matches(KeyCode::Space, KeyInput::Named(n)) <==> n == NamedKey::Space,
        key_matches(KeyCode::Enter, KeyInput::Named(n)) <==> n == NamedKey::Enter,
        key_matches(KeyCode::Escape, KeyInput::Named(n)) <==> n == NamedKey::Escape,
        key_matches(KeyCode::Tab, KeyInput::Named(n)) <==> n == NamedKey::Tab,
        key_matches(KeyCode::Backspace, KeyInput::Named(n)) <==> n == NamedKey::Backspace,
        key_matches(KeyCode::Delete, KeyInput::Named(n)) <==> n == NamedKey::Delete,
        key_matches(KeyCode::Up, KeyInput::Named(n)) <==> n == NamedKey::ArrowUp,
        key_matches(KeyCode::Down, KeyInput::Named(n)) <==> n == NamedKey::ArrowDown,
        key_matches(KeyCode::Left, KeyInput::Named(n)) <==> n == NamedKey::ArrowLeft,
        key_matches(KeyCode::Right, KeyInput::Named(n)) <==> n == NamedKey::ArrowRight,
        key_matches(KeyCode::Home, KeyInput::Named(n)) <==> n == NamedKey::Home,
        key_matches(KeyCode::End, KeyInput::Named(n)) <==> n == NamedKey::End,
        key_matches(KeyCode::PageUp, KeyInput::Named(n)) <==> n == NamedKey::PageUp,
        key_matches(KeyCode::PageDown, KeyInput::Named(n)) <==> n == NamedKey::PageDown,
        key_matches(KeyCode::F1, KeyInput::Named(n)) <==> n == NamedKey::F1,
        key_matches(KeyCode::F2, KeyInput::Named(n)) <==> n == NamedKey::F2,
        key_matches(KeyCode::F3, KeyInput::Named(n)) <==> n == NamedKey::F3,
        key_matches(KeyCode::F4, KeyInput::Named(n)) <==> n == NamedKey::F4,
        key_matches(KeyCode::F5, KeyInput::Named(n)) <==> n == NamedKey::F5,
        key_matches(KeyCode::F6, KeyInput::Named(n)) <==> n == NamedKey::F6,
        key_matches(KeyCode::F7, KeyInput::Named(n)) <==> n == NamedKey::F7,
        key_matches(KeyCode::F8, KeyInput::Named(n)) <==> n == NamedKey::F8,
        key_matches(KeyCode::F9, KeyInput::Named(n)) <==> n == NamedKey::F9,
        key_matches(KeyCode::F10, KeyInput::Named(n)) <==> n == NamedKey::F10,
        key_matches(KeyCode::F11, KeyInput::Named(n)) <==> n == NamedKey::F11,
        key_matches(KeyCode::F12, KeyInput::Named(n)) <==> n == NamedKey::F12,
        key_matches(KeyCode::MediaPlayPause, KeyInput::Named(n)) <==> n == NamedKey::MediaPlayPause,
        key_matches(KeyCode::MediaNext, KeyInput::Named(n)) <==> n == NamedKey::MediaTrackNext,
        key_matches(KeyCode::MediaPrev, KeyInput::Named(n)) <==> n == NamedKey::MediaTrackPrevious,
        key_matches(KeyCode::VolumeUp, KeyInput::Named(n)) <==> n == NamedKey::AudioVolumeUp,
        key_matches(KeyCode::VolumeDown, KeyInput::Named(n)) <==> n == NamedKey::AudioVolumeDown,
        key_matches(KeyCode::VolumeMute, KeyInput::Named(n)) <==> n == NamedKey::AudioVolumeMute,
        key_matches(KeyCode::A, KeyInput::Named(n)) == false,
        key_matches(KeyCode::Key0, KeyInput::Named(n)) == false,
{
}

/// A letter or digit key produces its label's character, lowercased; the
/// space key produces a space; the keys that produce text are those that are
/// no named key, and space.
pub proof fn lemma_key_text_is_label_lowercased(k: KeyCode)
    ensures
        key_char(k) is Some && k != KeyCode::Space ==> key_char(k) == Some(
            key_name(k).map_values(|c: char| ascii_lower(c)),
        ) && key_name(k).len() == 1,
        k == KeyCode::Space ==> key_char(k) == Some(seq![' ']),
        key_char(k) is Some <==> key_named(k) is None || k == KeyCode::Space,
{
    match k {
        KeyCode::A => {
            reveal_strlit("A");
        },
        KeyCode::B => {
            reveal_strlit("B");
        },
        KeyCode::C => {
            reveal_strlit("C");
        },
        KeyCode::D => {
            reveal_strlit("D");
        },
        KeyCode::E => {
            reveal_strlit("E");
        },
        KeyCode::F => {
            reveal_strlit("F");
        },
        KeyCode::G => {
            reveal_strlit("G");
        },
        KeyCode::H => {
            reveal_strlit("H");
        },
        KeyCode::I => {
            reveal_strlit("I");
        },
        KeyCode::J => {
            reveal_strlit("J");
        },
        KeyCode::K => {
            reveal_strlit("K");
        },
        KeyCode::L => {
            reveal_strlit("L");
        },
        KeyCode::M => {
            reveal_strlit("M");
        },
        KeyCode::N => {
            reveal_strlit("N");
        },
        KeyCode::O => {
            reveal_strlit("O");
        },
        KeyCode::P => {
            reveal_strlit("P");
        },
        KeyCode::Q => {
            reveal_strlit("Q");
        },
        KeyCode::R => {
            reveal_strlit("R");
        },
        KeyCode::S => {
            reveal_strlit("S");
        },
        KeyCode::T => {
            reveal_strlit("T");
        },
        KeyCode::U => {
            reveal_strlit("U");
        },
        KeyCode::V => {
            reveal_strlit("V");
        },
        KeyCode::W => {
            reveal_strlit("W");
        },
        KeyCode::X => {
            reveal_strlit("X");
        },
        KeyCode::Y => {
            reveal_strlit("Y");
        },
        KeyCode::Z => {
            reveal_strlit("Z");
        },
        KeyCode::Key0 => {
            reveal_strlit("0");
        },
        KeyCode::Key1 => {
            reveal_strlit("1");
        },
        KeyCode::Key2 => {
            reveal_strlit("2");
        },
        KeyCode::Key3 => {
            reveal_strlit("3");
        },
        KeyCode::Key4 => {
            reveal_strlit("4");
        },
        KeyCode::Key5 => {
            reveal_strlit("5");
        },
        KeyCode::Key6 => {
            reveal_strlit("6");
        },
        KeyCode::Key7 => {
            reveal_strlit("7");
        },
        KeyCode::Key8 => {
            reveal_strlit("8");
        },
        KeyCode::Key9 => {
            reveal_strlit("9");
        },
        _ => {},
    }
}

fn key_char_of(k: KeyCode) -> (r: Option<char>)
    ensures
        match r {
            Some(c) => key_char(k) == Some(seq![c]),
            None => key_char(k) is None,
        },
{
    match k {
        KeyCode::A => Some('a'), KeyCode::B => Some('b'), KeyCode::C => Some('c'),
        KeyCode::D => Some('d'), KeyCode::E => Some('e'), KeyCode::F => Some('f'),
        KeyCode::G => Some('g'), KeyCode::H => Some('h'), KeyCode::I => Some('i'),
        KeyCode::J => Some('j'), KeyCode::K => Some('k'), KeyCode::L => Some('l'),
        KeyCode::M => Some('m'), KeyCode::N => Some('n'), KeyCode::O => Some('o'),
        KeyCode::P => Some('p'), KeyCode::Q => Some('q'), KeyCode::R => Some('r'),
        KeyCode::S => Some('s'), KeyCode::T => Some('t'), KeyCode::U => Some('u'),
        KeyCode::V => Some('v'), KeyCode::W => Some('w'), KeyCode::X => Some('x'),
        KeyCode::Y => Some('y'), KeyCode::Z => Some('z'),
        KeyCode::Key0 => Some('0'), KeyCode::Key1 => Some('1'), KeyCode::Key2 => Some('2'),
        KeyCode::Key3 => Some('3'), KeyCode::Key4 => Some('4'), KeyCode::Key5 => Some('5'),
        KeyCode::Key6 => Some('6'), KeyCode::Key7 => Some('7'), KeyCode::Key8 => Some('8'),
        KeyCode::Key9 => Some('9'),
        KeyCode::Space => Some(' '),
        _ => None,
    }
}

impl KeyCode {
    /// Whether this key code is the key of an event.
    pub fn matches(&self, key: &KeyInput) -> (r: bool)
        ensures
            r == key_matches(*self, *key),
            match *key {
                KeyInput::Character(c) => ascii_only(c@) ==> r == (key_char(*self) == Some(
                    c@.map_values(|x: char| ascii_lower(x)),
                )),
                _ => true,
            },
    {
        match key {
            KeyInput::Character(c) => {
                let lower = to_lowercase(c.as_str());
                let expected = key_char_of(*self);
                match expected {
                    Some(e) => {
                        let v = string_chars(&lower);
                        let r = v.len() == 1 && v[0] == e;
                        proof {
                            if r {
                                assert(v@ =~= seq![e]);
                            }
                        }
                        r
                    },
                    None => false,
                }
            },
            KeyInput::Named(n) => {
                let expected: Option<NamedKey> = match self {
                    KeyCode::Space => Some(NamedKey::Space),
                    KeyCode::Enter => Some(NamedKey::Enter),
                    KeyCode::Escape => Some(NamedKey::Escape),
                    KeyCode::Tab => Some(NamedKey::Tab),
                    KeyCode::Backspace => Some(NamedKey::Backspace),
                    KeyCode::Delete => Some(NamedKey::Delete),
                    KeyCode::Up => Some(NamedKey::ArrowUp),
                    KeyCode::Down => Some(NamedKey::ArrowDown),
                    KeyCode::Left => Some(NamedKey::ArrowLeft),
                    KeyCode::Right => Some(NamedKey::ArrowRight),
                    KeyCode::Home => Some(NamedKey::Home),
                    KeyCode::End => Some(NamedKey::End),
                    KeyCode::PageUp => Some(NamedKey::PageUp),
                    KeyCode::PageDown => Some(NamedKey::PageDown),
                    KeyCode::F1 => Some(NamedKey::F1),
                    KeyCode::F2 => Some(NamedKey::F2),
                    KeyCode::F3 => Some(NamedKey::F3),
                    KeyCode::F4 => Some(NamedKey::F4),
                    KeyCode::F5 => Some(NamedKey::F5),
                    KeyCode::F6 => Some(NamedKey::F6),
                    KeyCode::F7 => Some(NamedKey::F7),
                    KeyCode::F8 => Some(NamedKey::F8),
                    KeyCode::F9 => Some(NamedKey::F9),
                    KeyCode::F10 => Some(NamedKey::F10),
                    KeyCode::F11 => Some(NamedKey::F11),
                    KeyCode::F12 => Some(NamedKey::F12),
                    KeyCode::MediaPlayPause => Some(NamedKey::MediaPlayPause),
                    KeyCode::MediaNext => Some(NamedKey::MediaTrackNext),
                    KeyCode::MediaPrev => Some(NamedKey::MediaTrackPrevious),
                    KeyCode::VolumeUp => Some(NamedKey::AudioVolumeUp),
                    KeyCode::VolumeDown => Some(NamedKey::AudioVolumeDown),
                    KeyCode::VolumeMute => Some(NamedKey::AudioVolumeMute),
                    _ => None,
                };
                match expected {
                    Some(e) => *n != NamedKey::Other && *n == e,
                    None => false,
                }
            },
            KeyInput::Unidentified => false,
        }
    }

    /// The name shown for this key.
    pub fn display(&self) -> (r: &'static str)
        ensures
            r@ == key_name(*self),
    {
        match self {
            KeyCode::A => "A", KeyCode::B => "B", KeyCode::C => "C", KeyCode::D => "D",
            KeyCode::E => "E", KeyCode::F => "F", KeyCode::G => "G", KeyCode::H => "H",
            KeyCode::I => "I", KeyCode::J => "J", KeyCode::K => "K", KeyCode::L => "L",
            KeyCode::M => "M", KeyCode::N => "N", KeyCode::O => "O", KeyCode::P => "P",
            KeyCode::Q => "Q", KeyCode::R => "R", KeyCode::S => "S", KeyCode::T => "T",
            KeyCode::U => "U", KeyCode::V => "V", KeyCode::W => "W", KeyCode::X => "X",
            KeyCode::Y => "Y", KeyCode::Z => "Z",
            KeyCode::Key0 => "0", KeyCode::Key1 => "1", KeyCode::Key2 => "2", KeyCode::Key3 => "3",
            KeyCode::Key4 => "4", KeyCode::Key5 => "5", KeyCode::Key6 => "6", KeyCode::Key7 => "7",
            KeyCode::Key8 => "8", KeyCode::Key9 => "9",
            KeyCode::F1 => "F1", KeyCode::F2 => "F2", KeyCode::F3 => "F3", KeyCode::F4 => "F4",
            KeyCode::F5 => "F5", KeyCode::F6 => "F6", KeyCode::F7 => "F7", KeyCode::F8 => "F8",
            KeyCode::F9 => "F9", KeyCode::F10 => "F10", KeyCode::F11 => "F11", KeyCode::F12 => "F12",
            KeyCode::Up => "↑", KeyCode::Down => "↓", KeyCode::Left => "←", KeyCode::Right => "→",
            KeyCode::Home => "Home", KeyCode::End => "End", KeyCode::PageUp => "PageUp",
            KeyCode::PageDown => "PageDown",
            KeyCode::Space => "Space", KeyCode::Enter => "Enter", KeyCode::Escape => "Esc",
            KeyCode::Tab => "Tab", KeyCode::Backspace => "Backspace", KeyCode::Delete => "Delete",
            KeyCode::MediaPlayPause => "Media Play", KeyCode::MediaNext => "Media Next",
            KeyCode::MediaPrev => "Media Prev", KeyCode::VolumeUp => "Vol+", KeyCode::VolumeDown => "Vol-",
            KeyCode::VolumeMute => "Mute",
        }
    }
}

// ----------------------------------------------------------------------------
// Key bindings
// ----------------------------------------------------------------------------

/// A keyboard shortcut: modifiers and a key.
#[derive(Debug, Clone, Copy, PartialEq, Eq, Hash, Structural)]
pub struct KeyBinding {
    pub modifiers: ModifierSet,
    pub key: KeyCode,
}

pub open spec fn binding_matches(b: KeyBinding, key: KeyInput, modifiers: KeyModifiers) -> bool {
    key_matches(b.key, key) && modifiers_match(b.modifiers, modifiers)
}

/// The shown form of a binding: the modifiers (Super, Ctrl, Alt, Shift, in
/// that order) and the key, joined by `+`.
pub open spec fn binding_text(b: KeyBinding) -> Seq<char> {
    (if b.modifiers.cmd { "Super+"@ } else { Seq::empty() }) + (if b.modifiers.ctrl {
        "Ctrl+"@
    } else {
        Seq::empty()
    }) + (if b.modifiers.alt { "Alt+"@ } else { Seq::empty() }) + (if b.modifiers.shift {
        "Shift+"@
    } else {
        Seq::empty()
    }) + key_name(b.key)
}

/// The binding with the primary modifier (Ctrl) added.
pub open spec fn with_primary(b: KeyBinding) -> KeyBinding {
    KeyBinding { modifiers: ModifierSet { ctrl: true, ..b.modifiers }, key: b.key }
}

impl KeyBinding {
    /// A binding of `key` without modifiers.
    pub fn new(key: KeyCode) -> (r: Self)
        ensures
            r == (KeyBinding { modifiers: no_modifiers(), key }),
    {
        KeyBinding { modifiers: ModifierSet::default(), key }
    }

    /// The binding with the primary modifier added.
    pub fn primary(self) -> (r: Self)
        ensures
            r == with_primary(self),
    {
        let mut b = self;
        b.modifiers.ctrl = true;
        b
    }

    /// Whether this binding matches a key event.
    pub fn matches(&self, key: &KeyInput, modifiers: &KeyModifiers) -> (r: bool)
        ensures
            r == binding_matches(*self, *key, *modifiers),
    {
        self.key.matches(key) && self.modifiers.matches(modifiers)
    }

    /// The binding in human-readable form, such as `Ctrl+Shift+P`.
    pub fn display(&self) -> (r: String)
        ensures
            r@ == binding_text(*self),
    {
        let mut s = String::new();
        if self.modifiers.cmd {
            push_str(&mut s, "Super+");
        }
        if self.modifiers.ctrl {
            push_str(&mut s, "Ctrl+");
        }
        if self.modifiers.alt {
            push_str(&mut s, "Alt+");
        }
        if self.modifiers.shift {
            push_str(&mut s, "Shift+");
        }
        push_str(&mut s, self.key.display());
        assert(s@ =~= binding_text(*self));
        s
    }
}

/// An action's bindings in a table: the first entry for the action.
pub open spec fn lookup(t: Seq<(Action, Seq<KeyBinding>)>, a: Action) -> Option<Seq<KeyBinding>>
    decreases t.len(),
{
    if t.len() == 0 {
        None
    } else if t[0].0 == a {
        Some(t[0].1)
    } else {
        lookup(t.drop_first(), a)
    }
}

/// The table with the action's bindings replaced (or added at the end).
pub open spec fn table_set(t: Seq<(Action, Seq<KeyBinding>)>, a: Action, bs: Seq<KeyBinding>) -> Seq<(Action, Seq<KeyBinding>)>
    decreases t.len(),
{
    if t.len() == 0 {
        seq![(a, bs)]
    } else if t[0].0 == a {
        t.update(0, (a, bs))
    } else {
        seq![t[0]] + table_set(t.drop_first(), a, bs)
    }
}

/// Writing an action's bindings: reading that action gives them back, and
/// every other action reads as before.
pub proof fn lemma_table_set(t: Seq<(Action, Seq<KeyBinding>)>, a: Action, bs: Seq<KeyBinding>, b: Action)
    ensures
        lookup(table_set(t, a, bs), a) == Some(bs),
        b != a ==> lookup(table_set(t, a, bs), b) == lookup(t, b),
    decreases t.len(),
{
    if t.len() > 0 && t[0].0 != a {
        lemma_table_set(t.drop_first(), a, bs, b);
        let s = seq![t[0]] + table_set(t.drop_first(), a, bs);
        assert(s.drop_first() =~= table_set(t.drop_first(), a, bs));
        assert(s[0] == t[0]);
        assert(table_set(t, a, bs) == s);
        if b != a {
            assert(lookup(s, b) == lookup(t, b));
        }
    } else if t.len() > 0 {
        assert(t.update(0, (a, bs)).drop_first() =~= t.drop_first());
        if b != a {
            assert(lookup(t.update(0, (a, bs)), b) == lookup(t, b));
        }
    } else {
        assert(seq![(a, bs)].drop_first() =~= Seq::<(Action, Seq<KeyBinding>)>::empty());
        assert(lookup(seq![(a, bs)].drop_first(), b) is None);
    }
}

pub open spec fn table_view(v: Seq<(Action, Vec<KeyBinding>)>) -> Seq<(Action, Seq<KeyBinding>)> {
    v.map_values(|e: (Action, Vec<KeyBinding>)| (e.0, e.1@))
}

/// The first of a list of bindings.
pub open spec fn first_binding(o: Option<Seq<KeyBinding>>) -> Option<KeyBinding> {
    match o {
        Some(bs) => if bs.len() > 0 { Some(bs[0]) } else { None },
        None => None,
    }
}

/// The shown form of an action's first binding, or `None`.
pub open spec fn shown(o: Option<Seq<KeyBinding>>) -> Seq<char> {
    match first_binding(o) {
        Some(b) => binding_text(b),
        None => "None"@,
    }
}

/// Whether some binding of `o` matches the event.
pub open spec fn any_matches(o: Option<Seq<KeyBinding>>, key: KeyInput, modifiers: KeyModifiers) -> bool {
    o is Some && some_match(o->0, key, modifiers)
}

pub open spec fn some_match(bs: Seq<KeyBinding>, key: KeyInput, modifiers: KeyModifiers) -> bool {
    exists|j: int| 0 <= j < bs.len() && binding_matches(#[trigger] bs[j], key, modifiers)
}

/// The first of `acts` that has a binding in `t` matching the event.
pub open spec fn first_matching(t: Seq<(Action, Seq<KeyBinding>)>, acts: Seq<Action>, key: KeyInput, modifiers: KeyModifiers) -> Option<Action>
    decreases acts.len(),
{
    if acts.len() == 0 {
        None
    } else if any_matches(lookup(t, acts[0]), key, modifiers) {
        Some(acts[0])
    } else {
        first_matching(t, acts.drop_first(), key, modifiers)
    }
}

/// Each of `acts` that has a first binding, with it.
pub open spec fn first_bindings(t: Seq<(Action, Seq<KeyBinding>)>, acts: Seq<Action>) -> Seq<(Action, KeyBinding)>
    decreases acts.len(),
{
    if acts.len() == 0 {
        Seq::empty()
    } else {
        let rest = first_bindings(t, acts.drop_last());
        match first_binding(lookup(t, acts.last())) {
            Some(b) => rest.push((acts.last(), b)),
            None => rest,
        }
    }
}

/// The default application-local bindings.
pub open spec fn default_local_table() -> Seq<(Action, Seq<KeyBinding>)> {
    let plain = |k: KeyCode| KeyBinding { modifiers: no_modifiers(), key: k };
    let prim = |k: KeyCode| with_primary(KeyBinding { modifiers: no_modifiers(), key: k });
    seq![
        (Action::PlayPause, seq![plain(KeyCode::Space), plain(KeyCode::MediaPlayPause)]),
        (Action::NextTrack, seq![prim(KeyCode::N), plain(KeyCode::MediaNext)]),
        (Action::PrevTrack, seq![prim(KeyCode::P), plain(KeyCode::MediaPrev)]),
        (Action::VolumeUp, seq![prim(KeyCode::Up), plain(KeyCode::VolumeUp)]),
        (Action::VolumeDown, seq![prim(KeyCode::Down), plain(KeyCode::VolumeDown)]),
        (Action::VolumeMute, seq![prim(KeyCode::M), plain(KeyCode::VolumeMute)]),
        (Action::SeekForward, seq![prim(KeyCode::Right)]),
        (Action::SeekBackward, seq![prim(KeyCode::Left)]),
        (Action::GoHome, seq![prim(KeyCode::H)]),
        (Action::FocusSearch, seq![prim(KeyCode::K)]),
        (Action::ToggleQueue, seq![plain(KeyCode::Q)]),
        (Action::ToggleFullscreen, seq![plain(KeyCode::F11)]),
    ]
}

/// Ctrl+Alt and the given key.
pub open spec fn ctrl_alt(k: KeyCode) -> KeyBinding {
    KeyBinding { modifiers: ModifierSet { ctrl: true, alt: true, ..no_modifiers() }, key: k }
}

/// The default global bindings: for each of `acts` with a local binding,
/// Ctrl+Alt and the key of its first local binding.
pub open spec fn global_table_from(local: Seq<(Action, Seq<KeyBinding>)>, acts: Seq<Action>) -> Seq<(Action, Seq<KeyBinding>)>
    decreases acts.len(),
{
    if acts.len() == 0 {
        Seq::empty()
    } else {
        let rest = global_table_from(local, acts.drop_last());
        match first_binding(lookup(local, acts.last())) {
            Some(b) => rest.push((acts.last(), seq![ctrl_alt(b.key)])),
            None => rest,
        }
    }
}

pub open spec fn default_global_table() -> Seq<(Action, Seq<KeyBinding>)> {
    global_table_from(default_local_table(), all_actions())
}

/// The global table built from `acts` binds exactly the actions of `acts`
/// with a local binding, each to Ctrl+Alt and its local key, provided `acts`
/// lists no action twice.
proof fn lemma_global_table_from(local: Seq<(Action, Seq<KeyBinding>)>, acts: Seq<Action>, a: Action)
    requires
        forall|i: int, j: int| 0 <= i < j < acts.len() ==> acts[i] != acts[j],
    ensures
        lookup(global_table_from(local, acts), a) == (if acts.contains(a) && first_binding(lookup(local, a)) is Some {
            Some(seq![ctrl_alt(first_binding(lookup(local, a))->0.key)])
        } else {
            None::<Seq<KeyBinding>>
        }),
    decreases acts.len(),
{
    if acts.len() > 0 {
        let rest = acts.drop_last();
        lemma_global_table_from(local, rest, a);
        lemma_lookup_push(global_table_from(local, rest), acts.last(), seq![ctrl_alt(first_binding(lookup(local, acts.last()))->0.key)], a);
        if a != acts.last() {
            assert(acts.contains(a) == rest.contains(a)) by {
                if acts.contains(a) {
                    let k = choose|k: int| 0 <= k < acts.len() && acts[k] == a;
                    assert(rest[k] == a);
                }
            }
        } else {
            assert(acts[acts.len() - 1] == a);
            assert(!rest.contains(a)) by {
                if rest.contains(a) {
                    let k = choose|k: int| 0 <= k < rest.len() && rest[k] == a;
                    assert(acts[k] == acts[acts.len() - 1]);
                }
            }
        }
    }
}

/// Looking up in a table with an entry appended.
proof fn lemma_lookup_push(t: Seq<(Action, Seq<KeyBinding>)>, a: Action, bs: Seq<KeyBinding>, b: Action)
    ensures
        lookup(t.push((a, bs)), b) == (match lookup(t, b) {
            Some(x) => Some(x),
            None => if a == b { Some(bs) } else { None },
        }),
    decreases t.len(),
{
    if t.len() == 0 {
        assert(t.push((a, bs)).drop_first() =~= Seq::<(Action, Seq<KeyBinding>)>::empty());
        assert(lookup(t.push((a, bs)).drop_first(), b) is None);
    } else {
        lemma_lookup_push(t.drop_first(), a, bs, b);
        assert(t.push((a, bs)).drop_first() =~= t.drop_first().push((a, bs)));
    }
}

/// In the default configuration every action has a local binding, and its
/// global binding is Ctrl+Alt with the key of that local binding.
pub proof fn law_default_global_mirrors_local(a: Action)
    ensures
        first_binding(lookup(default_local_table(), a)) is Some,
        lookup(default_global_table(), a) == Some(seq![ctrl_alt(first_binding(lookup(default_local_table(), a))->0.key)]),
{
    reveal_with_fuel(lookup, 13);
    assert(all_actions().contains(a)) by {
        match a {
            Action::PlayPause => assert(all_actions()[0] == a),
            Action::NextTrack => assert(all_actions()[1] == a),
            Action::PrevTrack => assert(all_actions()[2] == a),
            Action::VolumeUp => assert(all_actions()[3] == a),
            Action::VolumeDown => assert(all_actions()[4] == a),
            Action::VolumeMute => assert(all_actions()[5] == a),
            Action::SeekForward => assert(all_actions()[6] == a),
            Action::SeekBackward => assert(all_actions()[7] == a),
            Action::GoHome => assert(all_actions()[8] == a),
            Action::FocusSearch => assert(all_actions()[9] == a),
            Action::ToggleQueue => assert(all_actions()[10] == a),
            Action::ToggleFullscreen => assert(all_actions()[11] == a),
        }
    }
    lemma_global_table_from(default_local_table(), all_actions(), a);
}

/// The key bindings of every action, inside the application and system-wide.
#[derive(Debug, Clone)]
pub struct KeyBindings {
    bindings: Vec<(Action, Vec<KeyBinding>)>,
    global_bindings: Vec<(Action, Vec<KeyBinding>)>,
}

impl KeyBindings {
    /// The application-local bindings of an action.
    pub closed spec fn local(self, a: Action) -> Option<Seq<KeyBinding>> {
        lookup(table_view(self.bindings@), a)
    }

    /// The global bindings of an action.
    pub closed spec fn global(self, a: Action) -> Option<Seq<KeyBinding>> {
        lookup(table_view(self.global_bindings@), a)
    }

    pub closed spec fn local_table(self) -> Seq<(Action, Seq<KeyBinding>)> {
        table_view(self.bindings@)
    }

    pub closed spec fn global_table(self) -> Seq<(Action, Seq<KeyBinding>)> {
        table_view(self.global_bindings@)
    }
}

fn table_find(t: &Vec<(Action, Vec<KeyBinding>)>, a: Action) -> (r: Option<usize>)
    ensures
        match r {
            Some(i) => i < t.len() && lookup(table_view(t@), a) == Some(t@[i as int].1@),
            None => lookup(table_view(t@), a) is None,
        },
{
    let ghost tv = table_view(t@);
    let mut i: usize = 0;
    assert(tv.skip(0) =~= tv);
    while i < t.len()
        invariant
            i <= t.len(),
            tv == table_view(t@),
            lookup(tv, a) == lookup(tv.skip(i as int), a),
        decreases t.len() - i,
    {
        assert(tv.skip(i as int)[0] == (t@[i as int].0, t@[i as int].1@));
        assert(tv.skip(i as int).drop_first() =~= tv.skip(i + 1));
        if t[i].0 == a {
            return Some(i);
        }
        i += 1;
    }
    assert(tv.skip(i as int).len() == 0);
    None
}

fn table_set_exec(t: &mut Vec<(Action, Vec<KeyBinding>)>, a: Action, bs: Vec<KeyBinding>)
    ensures
        table_view(final(t)@) == table_set(table_view(old(t)@), a, bs@),
{
    let ghost tv = table_view(t@);
    let ghost bv = bs@;
    let mut i: usize = 0;
    while i < t.len()
        invariant
            i <= t.len(),
            t@ == old(t)@,
            tv == table_view(t@),
            forall|j: int| 0 <= j < i ==> #[trigger] t@[j].0 != a,
            bv == bs@,
        decreases t.len() - i,
    {
        if t[i].0 == a {
            t[i] = (a, bs);
            proof {
                lemma_table_set_at(tv, a, bv, i as int);
            }
            assert(table_view(t@) =~= tv.update(i as int, (a, bv)));
            return;
        }
        i += 1;
    }
    t.push((a, bs));
    proof {
        lemma_table_set_absent(tv, a, bv);
    }
    assert(table_view(t@) =~= tv.push((a, bv)));
}

/// Setting an action found first at `i` replaces that entry.
proof fn lemma_table_set_at(t: Seq<(Action, Seq<KeyBinding>)>, a: Action, bs: Seq<KeyBinding>, i: int)
    requires
        0 <= i < t.len(),
        t[i].0 == a,
        forall|j: int| 0 <= j < i ==> #[trigger] t[j].0 != a,
    ensures
        table_set(t, a, bs) == t.update(i, (a, bs)),
    decreases t.len(),
{
    if i > 0 {
        assert forall|j: int| 0 <= j < i - 1 implies #[trigger] t.drop_first()[j].0 != a by {
            assert(t.drop_first()[j] == t[j + 1]);
        }
        lemma_table_set_at(t.drop_first(), a, bs, i - 1);
        assert(seq![t[0]] + t.drop_first().update(i - 1, (a, bs)) =~= t.update(i, (a, bs)));
    }
}

/// Setting an action absent from the table appends it.
proof fn lemma_table_set_absent(t: Seq<(Action, Seq<KeyBinding>)>, a: Action, bs: Seq<KeyBinding>)
    requires
        forall|j: int| 0 <= j < t.len() ==> #[trigger] t[j].0 != a,
    ensures
        table_set(t, a, bs) == t.push((a, bs)),
    decreases t.len(),
{
    if t.len() > 0 {
        assert forall|j: int| 0 <= j < t.len() - 1 implies #[trigger] t.drop_first()[j].0 != a by {
            assert(t.drop_first()[j] == t[j + 1]);
        }
        lemma_table_set_absent(t.drop_first(), a, bs);
        assert(seq![t[0]] + t.drop_first().push((a, bs)) =~= t.push((a, bs)));
    } else {
        assert(seq![(a, bs)] =~= t.push((a, bs)));
    }
}

fn any_binding_matches(bs: &Vec<KeyBinding>, key: &KeyInput, modifiers: &KeyModifiers) -> (r: bool)
    ensures
        r == some_match(bs@, *key, *modifiers),
{
    let mut j: usize = 0;
    while j < bs.len()
        invariant
            j <= bs.len(),
            forall|k: int| 0 <= k < j ==> !binding_matches(#[trigger] bs@[k], *key, *modifiers),
        decreases bs.len() - j,
    {
        if bs[j].matches(key, modifiers) {
            assert(binding_matches(bs@[j as int], *key, *modifiers));
            return true;
        }
        j += 1;
    }
    false
}

fn find_in_table(t: &Vec<(Action, Vec<KeyBinding>)>, key: &KeyInput, modifiers: &KeyModifiers) -> (r: Option<Action>)
    ensures
        r == first_matching(table_view(t@), all_actions(), *key, *modifiers),
{
    let acts = Action::all();
    let ghost tv = table_view(t@);
    let mut i: usize = 0;
    assert(acts@.skip(0) =~= acts@);
    while i < acts.len()
        invariant
            i <= acts.len(),
            acts@ == all_actions(),
            tv == table_view(t@),
            first_matching(tv, all_actions(), *key, *modifiers) == first_matching(tv, acts@.skip(i as int), *key, *modifiers),
        decreases acts.len() - i,
    {
        assert(acts@.skip(i as int)[0] == acts@[i as int]);
        assert(acts@.skip(i as int).drop_first() =~= acts@.skip(i + 1));
        let a = acts[i];
        match table_find(t, a) {
            Some(k) => {
                if any_binding_matches(&t[k].1, key, modifiers) {
                    return Some(a);
                }
            },
            None => {},
        }
        i += 1;
    }
    assert(acts@.skip(i as int).len() == 0);
    None
}

fn first_of_table<'a>(t: &'a Vec<(Action, Vec<KeyBinding>)>, a: Action) -> (r: Option<&'a KeyBinding>)
    ensures
        match r {
            Some(b) => first_binding(lookup(table_view(t@), a)) == Some(*b),
            None => first_binding(lookup(table_view(t@), a)) is None,
        },
{
    match table_find(t, a) {
        Some(k) => {
            if t[k].1.len() > 0 {
                Some(&t[k].1[0])
            } else {
                None
            }
        },
        None => None,
    }
}

fn shown_exec(b: Option<&KeyBinding>) -> (r: String)
    ensures
        r@ == (match b {
            Some(b) => binding_text(*b),
            None => "None"@,
        }),
{
    match b {
        Some(b) => b.display(),
        None => {
            let mut s = String::new();
            push_str(&mut s, "None");
            s
        },
    }
}

fn push_entry(t: &mut Vec<(Action, Vec<KeyBinding>)>, a: Action, first: KeyBinding, second: Option<KeyBinding>)
    ensures
        table_view(final(t)@) == table_view(old(t)@).push(
            (
                a,
                match second {
                    Some(b) => seq![first, b],
                    None => seq![first],
                },
            ),
        ),
{
    let mut bs: Vec<KeyBinding> = Vec::new();
    bs.push(first);
    if let Some(b) = second {
        bs.push(b);
    }
    let ghost bv = bs@;
    t.push((a, bs));
    assert(bv =~= match second {
        Some(b) => seq![first, b],
        None => seq![first],
    });
    assert(table_view(t@) =~= table_view(old(t)@).push((a, bv)));
}

fn default_local_bindings() -> (r: Vec<(Action, Vec<KeyBinding>)>)
    ensures
        table_view(r@) == default_local_table(),
{
    let mut r: Vec<(Action, Vec<KeyBinding>)> = Vec::new();
    push_entry(&mut r, Action::PlayPause, KeyBinding::new(KeyCode::Space), Some(KeyBinding::new(KeyCode::MediaPlayPause)));
    push_entry(&mut r, Action::NextTrack, KeyBinding::new(KeyCode::N).primary(), Some(KeyBinding::new(KeyCode::MediaNext)));
    push_entry(&mut r, Action::PrevTrack, KeyBinding::new(KeyCode::P).primary(), Some(KeyBinding::new(KeyCode::MediaPrev)));
    push_entry(&mut r, Action::VolumeUp, KeyBinding::new(KeyCode::Up).primary(), Some(KeyBinding::new(KeyCode::VolumeUp)));
    push_entry(&mut r, Action::VolumeDown, KeyBinding::new(KeyCode::Down).primary(), Some(KeyBinding::new(KeyCode::VolumeDown)));
    push_entry(&mut r, Action::VolumeMute, KeyBinding::new(KeyCode::M).primary(), Some(KeyBinding::new(KeyCode::VolumeMute)));
    push_entry(&mut r, Action::SeekForward, KeyBinding::new(KeyCode::Right).primary(), None);
    push_entry(&mut r, Action::SeekBackward, KeyBinding::new(KeyCode::Left).primary(), None);
    push_entry(&mut r, Action::GoHome, KeyBinding::new(KeyCode::H).primary(), None);
    push_entry(&mut r, Action::FocusSearch, KeyBinding::new(KeyCode::K).primary(), None);
    push_entry(&mut r, Action::ToggleQueue, KeyBinding::new(KeyCode::Q), None);
    push_entry(&mut r, Action::ToggleFullscreen, KeyBinding::new(KeyCode::F11), None);
    assert(table_view(r@) =~= default_local_table());
    r
}

fn global_from_local(local: &Vec<(Action, Vec<KeyBinding>)>) -> (r: Vec<(Action, Vec<KeyBinding>)>)
    ensures
        table_view(r@) == global_table_from(table_view(local@), all_actions()),
{
    let acts = Action::all();
    let ghost lv = table_view(local@);
    let mut r: Vec<(Action, Vec<KeyBinding>)> = Vec::new();
    let mut i: usize = 0;
    assert(acts@.take(0) =~= Seq::<Action>::empty());
    while i < acts.len()
        invariant
            i <= acts.len(),
            acts@ == all_actions(),
            lv == table_view(local@),
            table_view(r@) == global_table_from(lv, acts@.take(i as int)),
        decreases acts.len() - i,
    {
        assert(acts@.take(i + 1).drop_last() =~= acts@.take(i as int));
        assert(acts@.take(i + 1).last() == acts@[i as int]);
        let a = acts[i];
        match first_of_table(local, a) {
            Some(b) => {
                let g = KeyBinding {
                    modifiers: ModifierSet { ctrl: true, cmd: false, alt: true, shift: false },
                    key: b.key,
                };
                let entry = (a, vec![g]);
                let ghost prev = r@;
                r.push(entry);
                assert(entry.1@ =~= seq![ctrl_alt(b.key)]);
                assert(table_view(r@) =~= table_view(prev).push((a, seq![ctrl_alt(b.key)])));
            },
            None => {},
        }
        i += 1;
    }
    assert(acts@.take(acts.len() as int) =~= acts@);
    r
}

fn copy_bindings(v: &Vec<KeyBinding>) -> (r: Vec<KeyBinding>)
    ensures
        r@ == v@,
{
    let mut r: Vec<KeyBinding> = Vec::new();
    let mut i: usize = 0;
    while i < v.len()
        invariant
            i <= v.len(),
            r@ == v@.take(i as int),
        decreases v.len() - i,
    {
        r.push(v[i]);
        assert(r@ =~= v@.take(i + 1));
        i += 1;
    }
    assert(r@ =~= v@);
    r
}

fn copy_table(t: &Vec<(Action, Vec<KeyBinding>)>) -> (r: Vec<(Action, Vec<KeyBinding>)>)
    ensures
        table_view(r@) == table_view(t@),
{
    let mut r: Vec<(Action, Vec<KeyBinding>)> = Vec::new();
    let mut i: usize = 0;
    while i < t.len()
        invariant
            i <= t.len(),
            table_view(r@) == table_view(t@).take(i as int),
        decreases t.len() - i,
    {
        let ghost prev = r@;
        let entry = (t[i].0, copy_bindings(&t[i].1));
        r.push(entry);
        assert(r@ == prev.push(entry));
        assert(table_view(t@)[i as int] == (t@[i as int].0, t@[i as int].1@));
        assert(table_view(r@) =~= table_view(prev).push((entry.0, entry.1@)));
        assert(table_view(r@) =~= table_view(t@).take(i + 1));
        i += 1;
    }
    assert(table_view(r@) =~= table_view(t@));
    r
}

impl KeyBindings {
    /// Bindings read back from their stored tables. Settings stored before
    /// there were global shortcuts have no global table: they get the
    /// default global bindings.
    pub fn from_tables(
        bindings: Vec<(Action, Vec<KeyBinding>)>,
        global_bindings: Option<Vec<(Action, Vec<KeyBinding>)>>,
    ) -> (r: Self)
        ensures
            r.local_table() == table_view(bindings@),
            r.global_table() == (match global_bindings {
                Some(g) => table_view(g@),
                None => default_global_table(),
            }),
    {
        let global_bindings = match global_bindings {
            Some(g) => g,
            None => global_from_local(&default_local_bindings()),
        };
        KeyBindings { bindings, global_bindings }
    }

    /// The local and the global table, as they are stored.
    pub fn tables(&self) -> (r: (Vec<(Action, Vec<KeyBinding>)>, Vec<(Action, Vec<KeyBinding>)>))
        ensures
            table_view(r.0@) == self.local_table(),
            table_view(r.1@) == self.global_table(),
    {
        (copy_table(&self.bindings), copy_table(&self.global_bindings))
    }
}

impl Default for KeyBindings {
    fn default() -> (r: Self)
        ensures
            r.local_table() == default_local_table(),
            r.global_table() == default_global_table(),
    {
        let bindings = default_local_bindings();
        let global_bindings = global_from_local(&bindings);
        KeyBindings { bindings, global_bindings }
    }
}

impl KeyBindings {
    /// Sets the application-local bindings of an action: reading that action
    /// back gives them, and every other binding is unchanged.
    pub fn set(&mut self, action: Action, bindings: Vec<KeyBinding>)
        ensures
            final(self).local_table() == table_set(old(self).local_table(), action, bindings@),
            lookup(final(self).local_table(), action) == Some(bindings@),
            forall|b: Action| b != action ==> #[trigger] lookup(final(self).local_table(), b) == lookup(old(self).local_table(), b),
            final(self).global_table() == old(self).global_table(),
    {
        let ghost bv = bindings@;
        table_set_exec(&mut self.bindings, action, bindings);
        proof {
            assert forall|b: Action| b != action implies #[trigger] lookup(self.local_table(), b) == lookup(old(self).local_table(), b) by {
                lemma_table_set(old(self).local_table(), action, bv, b);
            }
            lemma_table_set(old(self).local_table(), action, bv, action);
        }
    }

    /// Sets the global bindings of an action: reading that action back gives
    /// them, and every other binding is unchanged.
    pub fn set_global(&mut self, action: Action, bindings: Vec<KeyBinding>)
        ensures
            final(self).global_table() == table_set(old(self).global_table(), action, bindings@),
            lookup(final(self).global_table(), action) == Some(bindings@),
            forall|b: Action| b != action ==> #[trigger] lookup(final(self).global_table(), b) == lookup(old(self).global_table(), b),
            final(self).local_table() == old(self).local_table(),
    {
        let ghost bv = bindings@;
        table_set_exec(&mut self.global_bindings, action, bindings);
        proof {
            assert forall|b: Action| b != action implies #[trigger] lookup(self.global_table(), b) == lookup(old(self).global_table(), b) by {
                lemma_table_set(old(self).global_table(), action, bv, b);
            }
            lemma_table_set(old(self).global_table(), action, bv, action);
        }
    }

    /// The first action (in the order of `Action::all`) with a local binding
    /// that matches the event.
    pub fn find_action(&self, key: &KeyInput, modifiers: &KeyModifiers) -> (r: Option<Action>)
        ensures
            r == first_matching(self.local_table(), all_actions(), *key, *modifiers),
    {
        find_in_table(&self.bindings, key, modifiers)
    }

    /// The first action with a global binding that matches the event.
    pub fn find_global_action(&self, key: &KeyInput, modifiers: &KeyModifiers) -> (r: Option<Action>)
        ensures
            r == first_matching(self.global_table(), all_actions(), *key, *modifiers),
    {
        find_in_table(&self.global_bindings, key, modifiers)
    }

    /// The shown form of an action's first local binding, or `None`.
    pub fn display_for_action(&self, action: &Action) -> (r: String)
        ensures
            r@ == shown(lookup(self.local_table(), *action)),
    {
        shown_exec(self.local_binding(action))
    }

    /// The shown form of an action's first global binding, or `None`.
    pub fn display_global_for_action(&self, action: &Action) -> (r: String)
        ensures
            r@ == shown(lookup(self.global_table(), *action)),
    {
        shown_exec(self.global_binding(action))
    }

    /// An action's first local binding.
    pub fn local_binding(&self, action: &Action) -> (r: Option<&KeyBinding>)
        ensures
            match r {
                Some(b) => first_binding(lookup(self.local_table(), *action)) == Some(*b),
                None => first_binding(lookup(self.local_table(), *action)) is None,
            },
    {
        first_of_table(&self.bindings, *action)
    }

    /// An action's first global binding.
    pub fn global_binding(&self, action: &Action) -> (r: Option<&KeyBinding>)
        ensures
            match r {
                Some(b) => first_binding(lookup(self.global_table(), *action)) == Some(*b),
                None => first_binding(lookup(self.global_table(), *action)) is None,
            },
    {
        first_of_table(&self.global_bindings, *action)
    }

    /// The configured global bindings, one per action, in the order of `Action::all`.
    pub fn configured_global_bindings(&self) -> (r: Vec<(Action, KeyBinding)>)
        ensures
            r@ == first_bindings(self.global_table(), all_actions()),
    {
        let acts = Action::all();
        let mut r: Vec<(Action, KeyBinding)> = Vec::new();
        let mut i: usize = 0;
        assert(acts@.take(0) =~= Seq::<Action>::empty());
        while i < acts.len()
            invariant
                i <= acts.len(),
                acts@ == all_actions(),
                r@ == first_bindings(self.global_table(), acts@.take(i as int)),
            decreases acts.len() - i,
        {
            assert(acts@.take(i + 1).drop_last() =~= acts@.take(i as int));
            assert(acts@.take(i + 1).last() == acts@[i as int]);
            let a = acts[i];
            match self.global_binding(&a) {
                Some(b) => r.push((a, *b)),
                None => {},
            }
            i += 1;
        }
        assert(acts@.take(acts.len() as int) =~= acts@);
        r
    }
}

} // verus!
