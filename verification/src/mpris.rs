//! Media-player metadata and playback status published to the desktop
//! (MPRIS). Publishing them on the session bus is the application's part.

use vstd::prelude::*;

use crate::text::push_str;

verus! {

/// Track metadata.
#[derive(Debug, Clone, PartialEq)]
pub struct MprisMetadata {
    /// Unique track identifier.
    pub track_id: Option<String>,
    pub title: Option<String>,
    pub artists: Vec<String>,
    pub album: Option<String>,
    pub album_artists: Vec<String>,
    /// Track length in microseconds.
    pub length_us: Option<i64>,
    /// Cover art URL (`file://` or `http://`).
    pub art_url: Option<String>,
}

impl Default for MprisMetadata {
    fn default() -> (r: Self)
        ensures
            r.track_id is None,
            r.title is None,
            r.artists@.len() == 0,
            r.album is None,
            r.album_artists@.len() == 0,
            r.length_us is None,
            r.art_url is None,
    {
        MprisMetadata {
            track_id: None,
            title: None,
            artists: Vec::new(),
            album: None,
            album_artists: Vec::new(),
            length_us: None,
            art_url: None,
        }
    }
}

impl MprisMetadata {
    /// The D-Bus object path that names the track, `/org/rustle/track/<id>`,
    /// when it has an id.
    pub fn track_object_path(&self) -> (r: Option<String>)
        ensures
            match (r, self.track_id) {
                (Some(p), Some(id)) => p@ == "/org/rustle/track/"@ + id@,
                (None, None) => true,
                _ => false,
            },
    {
        match &self.track_id {
            Some(id) => {
                let mut p = String::new();
                push_str(&mut p, "/org/rustle/track/");
                push_str(&mut p, id.as_str());
                Some(p)
            },
            None => None,
        }
    }
}

/// Playback status.
#[derive(Debug, Clone, Copy, PartialEq, Eq, Structural)]
pub enum MprisPlaybackStatus {
    Playing,
    Paused,
    Stopped,
}

} // verus!
