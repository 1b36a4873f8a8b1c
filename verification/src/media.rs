//! The media records the library indexes and the play history it keeps.

use vstd::prelude::*;

verus! {

/// A scanned media file record.
#[derive(Debug)]
pub struct MediaFile {
    pub id: String,
    pub path: String,
    pub title: String,
    pub year: Option<i64>,
    pub duration_secs: Option<i64>,
    pub size_bytes: i64,
    pub container: Option<String>,
    pub video_codec: Option<String>,
    pub audio_codec: Option<String>,
    pub width: Option<i64>,
    pub height: Option<i64>,
}

/// One entry of the play history: the most recent play of a media file.
#[derive(Debug)]
pub struct PlayHistory {
    pub media_id: String,
    pub title: String,
    /// Unix timestamp, in seconds.
    pub played_at: i64,
}

/// A copy of an optional string.
pub fn clone_opt_string(o: &Option<String>) -> (r: Option<String>)
    ensures
        r == *o,
{
    match o {
        Some(s) => Some(s.clone()),
        None => None,
    }
}

impl Clone for MediaFile {
    fn clone(&self) -> (r: Self)
        ensures
            r == *self,
    {
        MediaFile {
            id: self.id.clone(),
            path: self.path.clone(),
            title: self.title.clone(),
            year: self.year,
            duration_secs: self.duration_secs,
            size_bytes: self.size_bytes,
            container: clone_opt_string(&self.container),
            video_codec: clone_opt_string(&self.video_codec),
            audio_codec: clone_opt_string(&self.audio_codec),
            width: self.width,
            height: self.height,
        }
    }
}

impl Clone for PlayHistory {
    fn clone(&self) -> (r: Self)
        ensures
            r == *self,
    {
        PlayHistory { media_id: self.media_id.clone(), title: self.title.clone(), played_at: self.played_at }
    }
}

} // verus!
