//! The song a player reports, and what every service's song offers.

use vstd::prelude::*;
use crate::json::JsonValue;

verus! {

/// The track that the music player is playing.
pub struct Song {
    pub title: String,
    pub artist: String,
    pub album: String,
}

impl Default for Song {
    fn default() -> (r: Song)
        ensures
            r.title@.len() == 0,
            r.artist@.len() == 0,
            r.album@.len() == 0,
    {
        Song { title: String::new(), artist: String::new(), album: String::new() }
    }
}

/// A song as a lyric service describes it.
pub trait RemoteSongTrait: Sized {
    /// The service's description of a song holds every field that `new` reads,
    /// each of the expected kind.
    spec fn readable(song: JsonValue) -> bool;

    /// The song a service's JSON description stands for.
    fn new(song: &JsonValue) -> Self
        requires
            Self::readable(*song),
    ;

    /// The song with no fields.
    fn new_empty() -> Self;

    /// No field of the song is set.
    fn is_empty(&self) -> bool;
}

} // verus!
