//! Plain values carried between the provider's REST responses and the
//! room runtime. The HTTP layer fills them in; the library reasons over
//! them.

use vstd::prelude::*;

verus! {

/// A fresh set of credentials as the provider hands them back.
#[derive(Debug)]
pub struct RefreshTokenOutput {
    pub access_token: String,
    pub refresh_token: String,
    pub token_type: String,
    pub expires_in: i64,
    pub scope: String,
}

/// One track as the provider reports it.
#[derive(Debug)]
pub struct SpotifyTrack {
    pub track_id: String,
    pub track_name: String,
    pub artist_name: String,
    pub track_duration: i64,
}

impl Clone for SpotifyTrack {
    fn clone(&self) -> (r: Self)
        ensures
            r == *self,
    {
        SpotifyTrack {
            track_id: self.track_id.clone(),
            track_name: self.track_name.clone(),
            artist_name: self.artist_name.clone(),
            track_duration: self.track_duration,
        }
    }
}

pub type SpotifyTackArray = Vec<SpotifyTrack>;

/// A named list of tracks.
#[derive(Debug)]
pub struct SpotifyPlaylist {
    pub title: String,
    pub tracks: Vec<SpotifyTrack>,
}

/// The provider's playback snapshot; `None` progress means the provider
/// did not report a position.
#[derive(Debug)]
pub struct SpotifyCurrentPlaybackOutput {
    pub device_id: String,
    pub device_volume: u8,
    pub shuffle: bool,
    pub progress_ms: Option<u64>,
    pub duration_ms: u64,
    pub is_playing: bool,
    pub track_id: String,
    pub track_name: String,
    pub artist_name: String,
    pub album_image_src: String,
}

impl Clone for SpotifyCurrentPlaybackOutput {
    fn clone(&self) -> (r: Self)
        ensures
            r == *self,
    {
        SpotifyCurrentPlaybackOutput {
            device_id: self.device_id.clone(),
            device_volume: self.device_volume,
            shuffle: self.shuffle,
            progress_ms: self.progress_ms,
            duration_ms: self.duration_ms,
            is_playing: self.is_playing,
            track_id: self.track_id.clone(),
            track_name: self.track_name.clone(),
            artist_name: self.artist_name.clone(),
            album_image_src: self.album_image_src.clone(),
        }
    }
}

} // verus!
